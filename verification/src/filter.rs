use vstd::prelude::*;

use crate::Error;
use crate::chars::{chars_to_string, dec_chars, push_dec};
use crate::seq_facts::{lemma_filter_push, lemma_filter_nonempty_witness};
use crate::tweet::{DateTime, Tweet};

verus! {

/// A calendar month: a year and a month number.
#[derive(Debug, Clone, Copy, PartialEq, Eq, Structural)]
pub struct YearMonth {
    pub year: u32,
    pub month: u32,
}

impl YearMonth {
    /// A four-digit year and a month from 1 to 12.
    pub open spec fn wf(self) -> bool {
        self.year <= 9999 && 1 <= self.month <= 12
    }
}

/// Whether `c` is a decimal digit.
pub open spec fn is_digit(c: char) -> bool {
    48 <= c as u32 <= 57
}

/// The value of a decimal digit character.
pub open spec fn digit_val(c: char) -> int {
    c as u32 - 48
}

/// Whether `s` has the form `YYYY-MM` with a month from 01 to 12.
pub open spec fn month_bound_ok(s: Seq<char>) -> bool {
    s.len() == 7 && is_digit(s[0]) && is_digit(s[1]) && is_digit(s[2]) && is_digit(s[3]) && s[4]
        == '-' && is_digit(s[5]) && is_digit(s[6]) && 1 <= digit_val(s[5]) * 10 + digit_val(s[6])
        <= 12
}

/// The month a well-formed `YYYY-MM` bound denotes.
pub open spec fn month_bound_value(s: Seq<char>) -> YearMonth {
    YearMonth {
        year: (digit_val(s[0]) * 1000 + digit_val(s[1]) * 100 + digit_val(s[2]) * 10 + digit_val(
            s[3],
        )) as u32,
        month: (digit_val(s[5]) * 10 + digit_val(s[6])) as u32,
    }
}

/// The value of a decimal digit character, or `None` for any other character.
fn char_digit(c: char) -> (r: Option<u32>)
    ensures
        r is Some <==> is_digit(c),
        r is Some ==> r->0 == digit_val(c),
{
    let u = c as u32;
    if 48 <= u && u <= 57 {
        Some(u - 48)
    } else {
        None
    }
}

/// Reads an inclusive month bound of the form `YYYY-MM`.
pub fn parse_month(s: &str) -> (r: Result<YearMonth, Error>)
    ensures
        r is Ok <==> month_bound_ok(s@),
        r is Ok ==> r->Ok_0 == month_bound_value(s@) && r->Ok_0.wf(),
        r is Err ==> r == Err::<YearMonth, Error>(Error::InvalidMonthBound),
{
    if s.unicode_len() != 7 {
        return Err(Error::InvalidMonthBound);
    }
    if s.get_char(4) != '-' {
        return Err(Error::InvalidMonthBound);
    }
    let d0 = match char_digit(s.get_char(0)) {
        Some(d) => d,
        None => { return Err(Error::InvalidMonthBound) },
    };
    let d1 = match char_digit(s.get_char(1)) {
        Some(d) => d,
        None => { return Err(Error::InvalidMonthBound) },
    };
    let d2 = match char_digit(s.get_char(2)) {
        Some(d) => d,
        None => { return Err(Error::InvalidMonthBound) },
    };
    let d3 = match char_digit(s.get_char(3)) {
        Some(d) => d,
        None => { return Err(Error::InvalidMonthBound) },
    };
    let d5 = match char_digit(s.get_char(5)) {
        Some(d) => d,
        None => { return Err(Error::InvalidMonthBound) },
    };
    let d6 = match char_digit(s.get_char(6)) {
        Some(d) => d,
        None => { return Err(Error::InvalidMonthBound) },
    };
    let month = d5 * 10 + d6;
    if month < 1 || month > 12 {
        return Err(Error::InvalidMonthBound);
    }
    let year = d0 * 1000 + d1 * 100 + d2 * 10 + d3;
    Ok(YearMonth { year, month })
}

/// Whether `dt` lies at or after the first instant of month `b`; for a
/// plausible calendar time this is a fact of the year and month alone.
pub open spec fn at_or_after_month(dt: DateTime, b: YearMonth) -> bool {
    dt.year > b.year || (dt.year == b.year && dt.month >= b.month)
}

/// Whether `dt` lies strictly before the first instant of the month after
/// `b` — that is, no later than the last instant of month `b`.
pub open spec fn within_end_month(dt: DateTime, b: YearMonth) -> bool {
    dt.year < b.year || (dt.year == b.year && dt.month <= b.month)
}

/// Keeps the posts created at or after the first day of `start_month`
/// (`YYYY-MM`), in order. A malformed bound is a configuration error.
pub fn filter_tweet_by_start_month(tweets: Vec<Tweet>, start_month: &str) -> (r: Result<
    Vec<Tweet>,
    Error,
>)
    ensures
        r is Ok <==> month_bound_ok(start_month@),
        r is Ok ==> r->Ok_0@ == tweets@.filter(
            |t: Tweet| at_or_after_month(t.created_at, month_bound_value(start_month@)),
        ),
        r is Err ==> r == Err::<Vec<Tweet>, Error>(Error::InvalidMonthBound),
{
    let b = match parse_month(start_month) {
        Ok(b) => b,
        Err(e) => { return Err(e) },
    };
    let ghost pred = |t: Tweet| at_or_after_month(t.created_at, month_bound_value(start_month@));
    let mut out: Vec<Tweet> = Vec::new();
    let n = tweets.len();
    let mut i: usize = 0;
    while i < n
        invariant
            n == tweets.len(),
            i <= n,
            b == month_bound_value(start_month@),
            pred == (|t: Tweet| at_or_after_month(
                t.created_at,
                month_bound_value(start_month@),
            )),
            out@ == tweets@.take(i as int).filter(pred),
        decreases n - i,
    {
        let dt = tweets[i].created_at;
        proof {
            assert(tweets@.take(i as int + 1) =~= tweets@.take(i as int).push(tweets@[i as int]));
            lemma_filter_push(tweets@.take(i as int), pred, tweets@[i as int]);
        }
        if dt.year > b.year || (dt.year == b.year && dt.month >= b.month) {
            out.push(tweets[i].clone());
        }
        i = i + 1;
    }
    proof {
        assert(tweets@.take(n as int) =~= tweets@);
    }
    Ok(out)
}

/// Keeps the posts created strictly before the first day of the month after
/// `end_month` (`YYYY-MM`) — the end month itself is kept whole, in order.
/// A malformed bound is a configuration error.
pub fn filter_tweet_by_end_month(tweets: Vec<Tweet>, end_month: &str) -> (r: Result<
    Vec<Tweet>,
    Error,
>)
    ensures
        r is Ok <==> month_bound_ok(end_month@),
        r is Ok ==> r->Ok_0@ == tweets@.filter(
            |t: Tweet| within_end_month(t.created_at, month_bound_value(end_month@)),
        ),
        r is Err ==> r == Err::<Vec<Tweet>, Error>(Error::InvalidMonthBound),
{
    let b = match parse_month(end_month) {
        Ok(b) => b,
        Err(e) => { return Err(e) },
    };
    let ghost pred = |t: Tweet| within_end_month(t.created_at, month_bound_value(end_month@));
    let mut out: Vec<Tweet> = Vec::new();
    let n = tweets.len();
    let mut i: usize = 0;
    while i < n
        invariant
            n == tweets.len(),
            i <= n,
            b == month_bound_value(end_month@),
            pred == (|t: Tweet| within_end_month(t.created_at, month_bound_value(end_month@))),
            out@ == tweets@.take(i as int).filter(pred),
        decreases n - i,
    {
        let dt = tweets[i].created_at;
        proof {
            assert(tweets@.take(i as int + 1) =~= tweets@.take(i as int).push(tweets@[i as int]));
            lemma_filter_push(tweets@.take(i as int), pred, tweets@[i as int]);
        }
        if dt.year < b.year || (dt.year == b.year && dt.month <= b.month) {
            out.push(tweets[i].clone());
        }
        i = i + 1;
    }
    proof {
        assert(tweets@.take(n as int) =~= tweets@);
    }
    Ok(out)
}

/// The month after `b` in the calendar.
pub open spec fn next_month(b: YearMonth) -> YearMonth {
    if b.month == 12 {
        YearMonth { year: (b.year + 1) as u32, month: 1 }
    } else {
        YearMonth { year: b.year, month: (b.month + 1) as u32 }
    }
}

/// Both month filters are inclusive of their boundary month: any time inside
/// the bound month passes the start filter and the end filter for that month,
/// and any time inside the month after an end bound fails the end filter.
pub proof fn lemma_month_filters_inclusive(dt: DateTime, b: YearMonth)
    requires
        dt.wf(),
        b.wf(),
    ensures
        dt.year == b.year && dt.month == b.month ==> at_or_after_month(dt, b) && within_end_month(
            dt,
            b,
        ),
        dt.year == next_month(b).year && dt.month == next_month(b).month ==> !within_end_month(
            dt,
            b,
        ),
{
}

/// The grouping key of a local calendar time: `year * 100 + month`.
pub open spec fn month_key(dt: DateTime) -> int {
    dt.year * 100 + dt.month
}

/// The grouping key of a post.
pub open spec fn tweet_key(t: Tweet) -> int {
    month_key(t.created_at)
}

/// The posts of one group share this key.
pub open spec fn group_pred(key: int) -> spec_fn(Tweet) -> bool {
    |t: Tweet| tweet_key(t) == key
}

/// One calendar month's posts, keyed by `year * 100 + month` in local time.
#[derive(Debug)]
pub struct MonthGroup {
    pub key: u32,
    pub tweets: Vec<Tweet>,
}

impl MonthGroup {
    /// The deterministic name of this group's note file: `tweets_<key>.md`.
    pub fn output_file_name(&self) -> (r: String)
        ensures
            r@ == seq!['t', 'w', 'e', 'e', 't', 's', '_'] + dec_chars(self.key as int) + seq![
                '.',
                'm',
                'd',
            ],
    {
        let mut out: Vec<char> = Vec::new();
        out.push('t');
        out.push('w');
        out.push('e');
        out.push('e');
        out.push('t');
        out.push('s');
        out.push('_');
        push_dec(&mut out, self.key);
        out.push('.');
        out.push('m');
        out.push('d');
        proof {
            assert(out@ =~= seq!['t', 'w', 'e', 'e', 't', 's', '_'] + dec_chars(self.key as int)
                + seq!['.', 'm', 'd']);
        }
        chars_to_string(&out)
    }
}

/// Whether some group carries the key `k`.
pub open spec fn has_group(groups: Seq<MonthGroup>, k: int) -> bool {
    exists|j: int| 0 <= j < groups.len() && (#[trigger] groups[j]).key == k
}

/// Splits the posts into one group per local calendar month, each group
/// holding exactly the posts of its month, in input order. Groups appear in
/// the order their months are first met; every group is non-empty, keys are
/// unique, and zero posts give zero groups.
pub fn group_by_month(tweets: &Vec<Tweet>) -> (r: Vec<MonthGroup>)
    requires
        forall|i: int| 0 <= i < tweets.len() ==> (#[trigger] tweets[i]).wf(),
    ensures
        forall|j: int|
            0 <= j < r.len() ==> (#[trigger] r[j]).tweets@ == tweets@.filter(
                group_pred(r[j].key as int),
            ),
        forall|j1: int, j2: int| 0 <= j1 < j2 < r.len() ==> r[j1].key != r[j2].key,
        forall|i: int|
            0 <= i < tweets.len() ==> #[trigger] has_group(r@, tweet_key(tweets@[i])),
        forall|j: int| 0 <= j < r.len() ==> (#[trigger] r[j]).tweets.len() >= 1,
        tweets.len() == 0 ==> r.len() == 0,
{
    let n = tweets.len();
    let mut r: Vec<MonthGroup> = Vec::new();
    let mut i: usize = 0;
    while i < n
        invariant
            n == tweets.len(),
            i <= n,
            forall|i2: int| 0 <= i2 < tweets.len() ==> (#[trigger] tweets[i2]).wf(),
            forall|j: int|
                0 <= j < r.len() ==> (#[trigger] r[j]).tweets@ == tweets@.take(i as int).filter(
                    group_pred(r[j].key as int),
                ),
            forall|j1: int, j2: int| 0 <= j1 < j2 < r.len() ==> r[j1].key != r[j2].key,
            forall|i2: int| 0 <= i2 < i ==> #[trigger] has_group(r@, tweet_key(tweets@[i2])),
            forall|j: int| 0 <= j < r.len() ==> (#[trigger] r[j]).tweets.len() >= 1,
        decreases n - i,
    {
        let dt = tweets[i].created_at;
        let k: u32 = dt.year * 100 + dt.month;
        let ghost t = tweets@[i as int];
        proof {
            assert(k as int == tweet_key(t));
            assert(tweets@.take(i as int + 1) =~= tweets@.take(i as int).push(t));
        }
        let mut j: usize = 0;
        let rn = r.len();
        while j < rn && r[j].key != k
            invariant
                rn == r.len(),
                j <= rn,
                forall|j2: int| 0 <= j2 < j ==> (#[trigger] r[j2]).key != k,
            decreases rn - j,
        {
            j = j + 1;
        }
        let ghost r0 = r@;
        if j < rn {
            let mut g = r.remove(j);
            g.tweets.push(tweets[i].clone());
            r.insert(j, g);
            proof {
                assert(r@ =~= r0.update(j as int, g));
                assert(g.key == r0[j as int].key);
                assert(g.key == k);
                assert forall|j2: int| 0 <= j2 < r@.len() implies (#[trigger] r@[j2]).tweets@
                    == tweets@.take(i as int + 1).filter(group_pred(r@[j2].key as int)) by {
                    lemma_filter_push(
                        tweets@.take(i as int),
                        group_pred(r@[j2].key as int),
                        t,
                    );
                    if j2 == j {
                        assert(group_pred(r@[j2].key as int)(t));
                        assert(g.tweets@ == r0[j as int].tweets@.push(t));
                    } else {
                        assert(r@[j2] == r0[j2]);
                        if j2 < j {
                            assert(r0[j2].key != k);
                        } else {
                            assert(r0[j as int].key != r0[j2].key);
                            assert(r0[j2].key != k);
                        }
                        assert(!group_pred(r@[j2].key as int)(t));
                    }
                }
                assert forall|i2: int| 0 <= i2 < i + 1 implies #[trigger] has_group(
                    r@,
                    tweet_key(tweets@[i2]),
                ) by {
                    if i2 < i {
                        assert(has_group(r0, tweet_key(tweets@[i2])));
                        let j2 = choose|j2: int|
                            0 <= j2 < r0.len() && (#[trigger] r0[j2]).key == tweet_key(
                                tweets@[i2],
                            );
                        assert(r@[j2].key == r0[j2].key);
                    } else {
                        assert(r@[j as int].key == k);
                    }
                }
            }
        } else {
            proof {
                assert forall|j2: int| 0 <= j2 < r.len() implies (#[trigger] r[j2]).key != k by {}
                if tweets@.take(i as int).filter(group_pred(k as int)).len() > 0 {
                    lemma_filter_nonempty_witness(
                        tweets@.take(i as int),
                        group_pred(k as int),
                    );
                    let i2 = choose|i2: int|
                        0 <= i2 < tweets@.take(i as int).len() && group_pred(k as int)(
                            #[trigger] tweets@.take(i as int)[i2],
                        );
                    assert(tweets@.take(i as int)[i2] == tweets@[i2]);
                    assert(has_group(r0, tweet_key(tweets@[i2])));
                    let j2 = choose|j2: int|
                        0 <= j2 < r0.len() && (#[trigger] r0[j2]).key == tweet_key(tweets@[i2]);
                    assert(false);
                }
            }
            let mut tv: Vec<Tweet> = Vec::new();
            tv.push(tweets[i].clone());
            r.push(MonthGroup { key: k, tweets: tv });
            proof {
                assert(r@ =~= r0.push(r@[r@.len() - 1]));
                assert forall|j2: int| 0 <= j2 < r@.len() implies (#[trigger] r@[j2]).tweets@
                    == tweets@.take(i as int + 1).filter(group_pred(r@[j2].key as int)) by {
                    lemma_filter_push(
                        tweets@.take(i as int),
                        group_pred(r@[j2].key as int),
                        t,
                    );
                    if j2 == r@.len() - 1 {
                        assert(group_pred(k as int)(t));
                        assert(tweets@.take(i as int).filter(group_pred(k as int)) =~= Seq::<
                            Tweet,
                        >::empty());
                        assert(r@[j2].tweets@ =~= Seq::<Tweet>::empty().push(t));
                    } else {
                        assert(r@[j2] == r0[j2]);
                        assert(r0[j2].key != k);
                        assert(!group_pred(r@[j2].key as int)(t));
                    }
                }
                assert forall|i2: int| 0 <= i2 < i + 1 implies #[trigger] has_group(
                    r@,
                    tweet_key(tweets@[i2]),
                ) by {
                    if i2 < i {
                        assert(has_group(r0, tweet_key(tweets@[i2])));
                        let j2 = choose|j2: int|
                            0 <= j2 < r0.len() && (#[trigger] r0[j2]).key == tweet_key(
                                tweets@[i2],
                            );
                        assert(r@[j2].key == r0[j2].key);
                    } else {
                        assert(r@[r@.len() - 1].key == k);
                    }
                }
            }
        }
        i = i + 1;
    }
    proof {
        assert(tweets@.take(n as int) =~= tweets@);
        if tweets.len() == 0 && r.len() > 0 {
            tweets@.lemma_filter_len(group_pred(r@[0].key as int));
            assert(r@[0].tweets@.len() <= 0);
        }
    }
    r
}

/// Whether some group of `groups` holds the post `t`.
pub open spec fn in_some_group(groups: Seq<MonthGroup>, t: Tweet) -> bool {
    exists|j: int| 0 <= j < groups.len() && (#[trigger] groups[j]).tweets@.contains(t)
}

/// Grouping is a partition: every input post lies in some group, in only one
/// group, and every grouped post comes from the input.
pub proof fn lemma_grouping_partition(tweets: Seq<Tweet>, groups: Seq<MonthGroup>)
    requires
        forall|j: int|
            0 <= j < groups.len() ==> (#[trigger] groups[j]).tweets@ == tweets.filter(
                group_pred(groups[j].key as int),
            ),
        forall|j1: int, j2: int| 0 <= j1 < j2 < groups.len() ==> groups[j1].key != groups[j2].key,
        forall|i: int| 0 <= i < tweets.len() ==> #[trigger] has_group(groups, tweet_key(tweets[i])),
    ensures
        forall|i: int| #![trigger tweets[i]]
            0 <= i < tweets.len() ==> in_some_group(groups, tweets[i]),
        forall|j1: int, j2: int, t: Tweet|
            #![trigger groups[j1].tweets@.contains(t), groups[j2].tweets@.contains(t)]
            0 <= j1 < groups.len() && 0 <= j2 < groups.len() && groups[j1].tweets@.contains(t)
                && groups[j2].tweets@.contains(t) ==> j1 == j2,
        forall|j: int, t: Tweet| #![trigger groups[j].tweets@.contains(t)]
            0 <= j < groups.len() && groups[j].tweets@.contains(t) ==> tweets.contains(t),
{
    broadcast use vstd::seq_lib::group_filter_ensures;

    assert forall|i: int| #![trigger tweets[i]] 0 <= i < tweets.len() implies in_some_group(
        groups,
        tweets[i],
    ) by {
        assert(has_group(groups, tweet_key(tweets[i])));
        let j = choose|j: int|
            0 <= j < groups.len() && (#[trigger] groups[j]).key == tweet_key(tweets[i]);
        assert(group_pred(groups[j].key as int)(tweets[i]));
        assert(tweets.filter(group_pred(groups[j].key as int)).contains(tweets[i]));
        assert(0 <= j < groups.len() && (#[trigger] groups[j]).tweets@.contains(tweets[i]));
    }
    assert forall|j1: int, j2: int, t: Tweet|
        #![trigger groups[j1].tweets@.contains(t), groups[j2].tweets@.contains(t)]
        0 <= j1 < groups.len() && 0 <= j2 < groups.len() && groups[j1].tweets@.contains(t)
            && groups[j2].tweets@.contains(t) implies j1 == j2 by {
        let p1 = group_pred(groups[j1].key as int);
        let p2 = group_pred(groups[j2].key as int);
        let i1 = choose|i1: int|
            0 <= i1 < tweets.filter(p1).len() && tweets.filter(p1)[i1] == t;
        assert(p1(t));
        let i2 = choose|i2: int|
            0 <= i2 < tweets.filter(p2).len() && tweets.filter(p2)[i2] == t;
        assert(p2(t));
        assert(groups[j1].key == groups[j2].key);
        if j1 < j2 {
            assert(false);
        } else if j2 < j1 {
            assert(false);
        }
    }
    assert forall|j: int, t: Tweet| #![trigger groups[j].tweets@.contains(t)]
        0 <= j < groups.len() && groups[j].tweets@.contains(t) implies tweets.contains(t) by {
        crate::seq_facts::lemma_filter_subset(tweets, group_pred(groups[j].key as int));
    }
}

} // verus!
