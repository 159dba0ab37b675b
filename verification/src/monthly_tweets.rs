use vstd::prelude::*;

use crate::Error;
use crate::chars::{
    pad2, pad3, pad4, dec_chars, lex_le, lemma_lex_le_total, lemma_lex_le_trans, push_pad2,
    push_pad3, push_pad4, push_dec, chars_to_string, lex_le_str,
};
use crate::formatter::{Formatter, formatted_text};
use crate::seq_facts::lemma_filter_push;
use crate::tweet::{DateTime, Tweet, datetime_chars, format_datetime, retweet_text};

verus! {

/// The activity counts of one hour-of-day bucket.
#[derive(Debug, Clone, Copy, PartialEq, Eq, Structural)]
pub struct TweetCountByHour {
    pub hour: usize,
    pub tweet_count: usize,
    pub retweet_count: usize,
    pub reply_count: usize,
}

impl TweetCountByHour {
    /// An empty bucket for the given hour.
    pub fn new(hour: usize) -> (r: Self)
        ensures
            r.hour == hour,
            r.tweet_count == 0,
            r.retweet_count == 0,
            r.reply_count == 0,
    {
        Self { hour, tweet_count: 0, retweet_count: 0, reply_count: 0 }
    }
}

/// Per-month aggregate activity: total, retweet and reply counts, and one
/// bucket per hour of the day, always all 24 of them.
#[derive(Debug)]
pub struct ActivityStats {
    pub tweet_count: usize,
    pub retweet_count: usize,
    pub reply_count: usize,
    pub tweet_count_by_hour: Vec<TweetCountByHour>,
}

/// The posts a re-share predicate selects.
pub open spec fn is_retweet_pred() -> spec_fn(Tweet) -> bool {
    |t: Tweet| retweet_text(t.full_text@)
}

/// The posts a reply predicate selects.
pub open spec fn is_reply_pred() -> spec_fn(Tweet) -> bool {
    |t: Tweet| t.is_reply
}

/// The posts created at local hour `h`.
pub open spec fn hour_pred(h: int) -> spec_fn(Tweet) -> bool {
    |t: Tweet| t.created_at.hour == h
}

/// The re-shares created at local hour `h`.
pub open spec fn hour_retweet_pred(h: int) -> spec_fn(Tweet) -> bool {
    |t: Tweet| t.created_at.hour == h && retweet_text(t.full_text@)
}

/// The replies created at local hour `h`.
pub open spec fn hour_reply_pred(h: int) -> spec_fn(Tweet) -> bool {
    |t: Tweet| t.created_at.hour == h && t.is_reply
}

/// What the aggregate counts of a group say: the totals count the whole group,
/// and each of the 24 buckets counts exactly the posts of its hour.
pub open spec fn stats_correct(st: ActivityStats, s: Seq<Tweet>) -> bool {
    &&& st.tweet_count == s.len()
    &&& st.retweet_count == s.filter(is_retweet_pred()).len()
    &&& st.reply_count == s.filter(is_reply_pred()).len()
    &&& st.tweet_count_by_hour.len() == 24
    &&& forall|h: int| 0 <= h < 24 ==> (#[trigger] st.tweet_count_by_hour[h]).hour == h
    &&& forall|h: int|
        0 <= h < 24 ==> (#[trigger] st.tweet_count_by_hour[h]).tweet_count == s.filter(
            hour_pred(h),
        ).len()
    &&& forall|h: int|
        0 <= h < 24 ==> (#[trigger] st.tweet_count_by_hour[h]).retweet_count == s.filter(
            hour_retweet_pred(h),
        ).len()
    &&& forall|h: int|
        0 <= h < 24 ==> (#[trigger] st.tweet_count_by_hour[h]).reply_count == s.filter(
            hour_reply_pred(h),
        ).len()
}

/// A post ready for rendering: its formatted local creation time and its
/// normalized body text.
#[derive(Debug)]
pub struct FormattedTweet {
    pub created_at: String,
    pub text: String,
}

impl Clone for FormattedTweet {
    fn clone(&self) -> (r: Self)
        ensures
            r == *self,
    {
        FormattedTweet { created_at: self.created_at.clone(), text: self.text.clone() }
    }
}

/// The visible content of a formatted post.
pub open spec fn ft_view(f: FormattedTweet) -> (Seq<char>, Seq<char>) {
    (f.created_at@, f.text@)
}

/// The content a post gains once formatted: its canonical timestamp and its
/// normalized body.
pub open spec fn tweet_ft_view(t: Tweet) -> (Seq<char>, Seq<char>) {
    (datetime_chars(t.created_at), formatted_text(t.full_text@))
}

/// Ascending lexicographic order by the formatted creation time.
pub open spec fn sorted_by_created(s: Seq<FormattedTweet>) -> bool {
    forall|i: int, j: int|
        0 <= i < j < s.len() ==> lex_le((#[trigger] s[i]).created_at@, (#[trigger] s[j]).created_at@)
}

/// What formatting a group yields: one formatted post per input post (as a
/// multiset of contents), sorted by the formatted creation time.
pub open spec fn formatted_output_ok(out: Seq<FormattedTweet>, s: Seq<Tweet>) -> bool {
    &&& out.len() == s.len()
    &&& out.map_values(|f: FormattedTweet| ft_view(f)).to_multiset() == s.map_values(
        |t: Tweet| tweet_ft_view(t),
    ).to_multiset()
    &&& sorted_by_created(out)
}

/// The `YYYYMMDDHHMMSSmmm` identifier form of a calendar time.
pub open spec fn id_chars(dt: DateTime) -> Seq<char> {
    pad4(dt.year as int) + pad2(dt.month as int) + pad2(dt.day as int) + pad2(dt.hour as int)
        + pad2(dt.minute as int) + pad2(dt.second as int) + pad3(dt.millisecond as int)
}

/// Whether `dt` is the creation time of some post of `s` and no post of `s`
/// is earlier.
pub open spec fn earliest_of(s: Seq<Tweet>, dt: DateTime) -> bool {
    &&& exists|i: int| 0 <= i < s.len() && dt == (#[trigger] s[i]).created_at
    &&& forall|i: int| 0 <= i < s.len() ==> dt.le((#[trigger] s[i]).created_at)
}

/// The render payload of one month group.
#[derive(Debug)]
pub struct MonthlyTweetsTemplateInput {
    pub id: String,
    pub file_created_at: String,
    pub month: String,
    pub year: String,
    pub stats: ActivityStats,
    pub tweets: Vec<FormattedTweet>,
}

/// What the render payload of a group says: its headers all come from one
/// earliest post of the group, its counts are the group's aggregate activity,
/// and its entries are the group's posts, formatted and sorted.
pub open spec fn input_ok(inp: MonthlyTweetsTemplateInput, s: Seq<Tweet>) -> bool {
    &&& exists|dt: DateTime|
        {
            &&& #[trigger] earliest_of(s, dt)
            &&& inp.id@ == id_chars(dt)
            &&& inp.file_created_at@ == datetime_chars(dt)
            &&& inp.year@ == dec_chars(dt.year as int)
            &&& inp.month@ == pad2(dt.month as int)
        }
    &&& stats_correct(inp.stats, s)
    &&& formatted_output_ok(inp.tweets@, s)
}

impl MonthlyTweetsTemplateInput {
    /// Formats every post of the group and sorts the results in ascending
    /// lexicographic order of their formatted creation times (equal times keep
    /// their input order).
    pub fn format_tweets(tweets: &Vec<Tweet>) -> (r: Vec<FormattedTweet>)
        requires
            forall|i: int| 0 <= i < tweets.len() ==> (#[trigger] tweets[i]).wf(),
        ensures
            formatted_output_ok(r@, tweets@),
    {
        let formatter = Formatter::new();
        let n = tweets.len();
        let mut fts: Vec<FormattedTweet> = Vec::new();
        let mut i: usize = 0;
        while i < n
            invariant
                i <= n,
                n == tweets.len(),
                forall|k: int| 0 <= k < tweets.len() ==> (#[trigger] tweets[k]).wf(),
                fts@.len() == i,
                forall|k: int|
                    0 <= k < i ==> ft_view(#[trigger] fts@[k]) == tweet_ft_view(tweets@[k]),
            decreases n - i,
        {
            let dt = tweets[i].created_at;
            let created = format_datetime(&dt);
            let text = formatter.format_text(tweets[i].full_text());
            fts.push(FormattedTweet { created_at: created, text });
            i = i + 1;
        }
        proof {
            assert(fts@.map_values(|f: FormattedTweet| ft_view(f)) =~= tweets@.map_values(
                |t: Tweet| tweet_ft_view(t),
            ));
        }
        let mut out: Vec<FormattedTweet> = Vec::new();
        let mut k: usize = 0;
        proof {
            broadcast use vstd::seq_lib::group_to_multiset_ensures;

            assert(fts@.take(0) =~= Seq::<FormattedTweet>::empty());
            assert(Seq::<FormattedTweet>::empty().map_values(|f: FormattedTweet| ft_view(f))
                =~= Seq::<(Seq<char>, Seq<char>)>::empty());
            assert(out@.map_values(|f: FormattedTweet| ft_view(f)) =~= Seq::<
                (Seq<char>, Seq<char>),
            >::empty());
        }
        while k < n
            invariant
                k <= n,
                n == fts@.len(),
                out@.len() == k,
                sorted_by_created(out@),
                out@.map_values(|f: FormattedTweet| ft_view(f)).to_multiset() == fts@.take(
                    k as int,
                ).map_values(|f: FormattedTweet| ft_view(f)).to_multiset(),
            decreases n - k,
        {
            let f = fts[k].clone();
            let mut j: usize = 0;
            while j < out.len() && lex_le_str(out[j].created_at.as_str(), f.created_at.as_str())
                invariant
                    j <= out@.len(),
                    forall|j2: int|
                        0 <= j2 < j ==> lex_le((#[trigger] out@[j2]).created_at@, f.created_at@),
                decreases out@.len() - j,
            {
                j = j + 1;
            }
            proof {
                if j < out@.len() {
                    lemma_lex_le_total(out@[j as int].created_at@, f.created_at@);
                    assert(lex_le(f.created_at@, out@[j as int].created_at@));
                }
            }
            let ghost out0 = out@;
            out.insert(j, f);
            proof {
                broadcast use vstd::seq_lib::group_to_multiset_ensures;
                broadcast use vstd::seq_lib::to_multiset_insert;

                assert(out@ == out0.insert(j as int, f));
                assert forall|i1: int, i2: int| 0 <= i1 < i2 < out@.len() implies lex_le(
                    (#[trigger] out@[i1]).created_at@,
                    (#[trigger] out@[i2]).created_at@,
                ) by {
                    let ji = j as int;
                    if i1 < ji && i2 < ji {
                        assert(out@[i1] == out0[i1]);
                        assert(out@[i2] == out0[i2]);
                    } else if i1 < ji && i2 == ji {
                        assert(out@[i1] == out0[i1]);
                    } else if i1 < ji && i2 > ji {
                        assert(out@[i1] == out0[i1]);
                        assert(out@[i2] == out0[i2 - 1]);
                        if i1 < i2 - 1 {
                        } else {
                            assert(i1 == i2 - 1);
                            assert(i1 >= ji);
                            assert(false);
                        }
                    } else if i1 == ji {
                        assert(out@[i2] == out0[i2 - 1]);
                        assert(i2 - 1 >= ji);
                        if i2 - 1 == ji {
                            if ji < out0.len() {
                                assert(lex_le(f.created_at@, out0[ji].created_at@));
                            }
                        } else {
                            assert(lex_le(f.created_at@, out0[ji].created_at@));
                            assert(lex_le(out0[ji].created_at@, out0[i2 - 1].created_at@));
                            lemma_lex_le_trans(
                                f.created_at@,
                                out0[ji].created_at@,
                                out0[i2 - 1].created_at@,
                            );
                        }
                    } else {
                        assert(out@[i1] == out0[i1 - 1]);
                        assert(out@[i2] == out0[i2 - 1]);
                    }
                }
                let vf = |g: FormattedTweet| ft_view(g);
                assert(out@.map_values(vf) =~= out0.map_values(vf).insert(j as int, ft_view(f)));
                assert(fts@.take(k as int + 1) =~= fts@.take(k as int).push(fts@[k as int]));
                assert(fts@.take(k as int + 1).map_values(vf) =~= fts@.take(k as int).map_values(
                    vf,
                ).push(ft_view(fts@[k as int])));
                assert(out@.map_values(vf).to_multiset() == out0.map_values(vf).to_multiset(
                ).insert(ft_view(f)));
                assert(fts@.take(k as int + 1).map_values(vf).to_multiset() == fts@.take(
                    k as int,
                ).map_values(vf).to_multiset().insert(ft_view(fts@[k as int])));
            }
            k = k + 1;
        }
        proof {
            assert(fts@.take(n as int) =~= fts@);
        }
        out
    }

    /// The creation time of the earliest post of a non-empty group; several
    /// posts may share it, and then the first of them in input order is taken:
    /// the witness below is the index of a post with that time, and every post
    /// before it is strictly later.
    pub fn extract_earliest_tweet_created_at(tweets: &Vec<Tweet>) -> (r: DateTime)
        requires
            tweets.len() > 0,
        ensures
            earliest_of(tweets@, r),
            exists|b: int|
                0 <= b < tweets@.len() && r == (#[trigger] tweets@[b]).created_at && forall|k: int|
                    0 <= k < b ==> !(#[trigger] tweets@[k]).created_at.le(r),
    {
        let mut best = tweets[0].created_at;
        let ghost mut bi: int = 0;
        let mut i: usize = 1;
        while i < tweets.len()
            invariant
                1 <= i <= tweets.len(),
                0 <= bi < i,
                best == tweets@[bi].created_at,
                forall|k: int| 0 <= k < i ==> best.le((#[trigger] tweets@[k]).created_at),
                forall|k: int| 0 <= k < bi ==> !(#[trigger] tweets@[k]).created_at.le(best),
            decreases tweets.len() - i,
        {
            let ca = tweets[i].created_at;
            if !best.is_no_later_than(&ca) {
                proof {
                    assert(ca.le(best));
                    assert forall|k: int|
                        0 <= k < i implies !(#[trigger] tweets@[k]).created_at.le(ca) by {
                        assert(best.le(tweets@[k].created_at));
                    }
                    bi = i as int;
                }
                best = ca;
            }
            i = i + 1;
        }
        best
    }

    /// The `YYYYMMDDHHMMSSmmm` identifier derived from a calendar time.
    pub fn format_id(created_at: &DateTime) -> (r: String)
        requires
            created_at.wf(),
        ensures
            r@ == id_chars(*created_at),
    {
        let mut out: Vec<char> = Vec::new();
        push_pad4(&mut out, created_at.year);
        push_pad2(&mut out, created_at.month);
        push_pad2(&mut out, created_at.day);
        push_pad2(&mut out, created_at.hour);
        push_pad2(&mut out, created_at.minute);
        push_pad2(&mut out, created_at.second);
        push_pad3(&mut out, created_at.millisecond);
        proof {
            assert(out@ =~= id_chars(*created_at));
        }
        chars_to_string(&out)
    }

    /// The canonical `YYYY-MM-DD HH:MM:SS` form of a calendar time.
    pub fn format_file_created_at(created_at: &DateTime) -> (r: String)
        requires
            created_at.wf(),
        ensures
            r@ == datetime_chars(*created_at),
    {
        format_datetime(created_at)
    }

    /// The aggregate activity of a group: one pass, counting each post in its
    /// hour bucket and in the totals, with the re-share and reply sub-counts
    /// kept independently (a post can raise both).
    pub fn generate_activity_stats(tweets: &Vec<Tweet>) -> (r: ActivityStats)
        requires
            forall|i: int| 0 <= i < tweets.len() ==> (#[trigger] tweets[i]).wf(),
        ensures
            stats_correct(r, tweets@),
    {
        let mut buckets: Vec<TweetCountByHour> = Vec::new();
        let mut h: usize = 0;
        while h < 24
            invariant
                h <= 24,
                buckets@.len() == h,
                forall|h2: int|
                    0 <= h2 < h ==> (#[trigger] buckets@[h2]) == (TweetCountByHour {
                        hour: h2 as usize,
                        tweet_count: 0,
                        retweet_count: 0,
                        reply_count: 0,
                    }),
            decreases 24 - h,
        {
            buckets.push(TweetCountByHour::new(h));
            h = h + 1;
        }
        let ghost empty_take = tweets@.take(0);
        proof {
            broadcast use vstd::seq_lib::group_filter_ensures;

            assert(empty_take =~= Seq::<Tweet>::empty());
            assert forall|pred: spec_fn(Tweet) -> bool|
                (#[trigger] empty_take.filter(pred)).len() == 0 by {
                empty_take.lemma_filter_len(pred);
            }
        }
        let n = tweets.len();
        let mut rc: usize = 0;
        let mut yc: usize = 0;
        let mut i: usize = 0;
        while i < n
            invariant
                i <= n,
                n == tweets.len(),
                forall|k: int| 0 <= k < tweets.len() ==> (#[trigger] tweets[k]).wf(),
                rc == tweets@.take(i as int).filter(is_retweet_pred()).len(),
                yc == tweets@.take(i as int).filter(is_reply_pred()).len(),
                buckets@.len() == 24,
                forall|h2: int| 0 <= h2 < 24 ==> (#[trigger] buckets@[h2]).hour == h2,
                forall|h2: int|
                    0 <= h2 < 24 ==> (#[trigger] buckets@[h2]).tweet_count == tweets@.take(
                        i as int,
                    ).filter(hour_pred(h2)).len(),
                forall|h2: int|
                    0 <= h2 < 24 ==> (#[trigger] buckets@[h2]).retweet_count == tweets@.take(
                        i as int,
                    ).filter(hour_retweet_pred(h2)).len(),
                forall|h2: int|
                    0 <= h2 < 24 ==> (#[trigger] buckets@[h2]).reply_count == tweets@.take(
                        i as int,
                    ).filter(hour_reply_pred(h2)).len(),
            decreases n - i,
        {
            let ghost t = tweets@[i as int];
            let ghost pre = tweets@.take(i as int);
            proof {
                broadcast use vstd::seq_lib::group_filter_ensures;

                assert(tweets@.take(i as int + 1) =~= pre.push(t));
                assert(pre.len() == i as int);
                lemma_filter_push(pre, is_retweet_pred(), t);
                lemma_filter_push(pre, is_reply_pred(), t);
                assert forall|h2: int| 0 <= h2 < 24 implies (#[trigger] tweets@.take(
                    i as int + 1,
                ).filter(hour_pred(h2))).len() == pre.filter(hour_pred(h2)).len() + (
                if hour_pred(h2)(t) {
                    1int
                } else {
                    0
                }) by {
                    lemma_filter_push(pre, hour_pred(h2), t);
                    pre.lemma_filter_len(hour_pred(h2));
                }
                assert forall|h2: int| 0 <= h2 < 24 implies (#[trigger] tweets@.take(
                    i as int + 1,
                ).filter(hour_retweet_pred(h2))).len() == pre.filter(hour_retweet_pred(h2)).len()
                    + (if hour_retweet_pred(h2)(t) {
                    1int
                } else {
                    0
                }) by {
                    lemma_filter_push(pre, hour_retweet_pred(h2), t);
                    pre.lemma_filter_len(hour_retweet_pred(h2));
                }
                assert forall|h2: int| 0 <= h2 < 24 implies (#[trigger] tweets@.take(
                    i as int + 1,
                ).filter(hour_reply_pred(h2))).len() == pre.filter(hour_reply_pred(h2)).len() + (
                if hour_reply_pred(h2)(t) {
                    1int
                } else {
                    0
                }) by {
                    lemma_filter_push(pre, hour_reply_pred(h2), t);
                    pre.lemma_filter_len(hour_reply_pred(h2));
                }
                pre.lemma_filter_len(is_retweet_pred());
                pre.lemma_filter_len(is_reply_pred());
            }
            let hour = tweets[i].created_at.hour as usize;
            let is_rt = tweets[i].is_retweet();
            let is_rp = tweets[i].is_reply();
            let mut b = buckets[hour];
            proof {
                broadcast use vstd::seq_lib::group_filter_ensures;

                pre.lemma_filter_len(hour_pred(hour as int));
                pre.lemma_filter_len(hour_retweet_pred(hour as int));
                pre.lemma_filter_len(hour_reply_pred(hour as int));
            }
            b.tweet_count = b.tweet_count + 1;
            if is_rt {
                b.retweet_count = b.retweet_count + 1;
                rc = rc + 1;
            }
            if is_rp {
                b.reply_count = b.reply_count + 1;
                yc = yc + 1;
            }
            buckets.set(hour, b);
            i = i + 1;
        }
        proof {
            assert(tweets@.take(n as int) =~= tweets@);
        }
        ActivityStats {
            tweet_count: tweets.len(),
            retweet_count: rc,
            reply_count: yc,
            tweet_count_by_hour: buckets,
        }
    }

    /// Builds the render payload of a non-empty group: the identifier, header
    /// timestamp, year and month all come from the group's earliest post, the
    /// counts from its aggregate activity, and the entries from its formatted,
    /// sorted posts. An empty group is a per-month error.
    pub fn new(tweets: &Vec<Tweet>) -> (r: Result<MonthlyTweetsTemplateInput, Error>)
        requires
            forall|i: int| 0 <= i < tweets.len() ==> (#[trigger] tweets[i]).wf(),
        ensures
            r is Ok <==> tweets.len() > 0,
            r is Err ==> r == Err::<MonthlyTweetsTemplateInput, Error>(Error::EmptyGroup),
            r is Ok ==> input_ok(r->Ok_0, tweets@),
    {
        if tweets.len() == 0 {
            return Err(Error::EmptyGroup);
        }
        let earliest = Self::extract_earliest_tweet_created_at(tweets);
        proof {
            let b = choose|b: int| 0 <= b < tweets@.len() && earliest == (#[trigger] tweets@[b]).created_at;
            assert(tweets@[b].wf());
        }
        let mut year_chars: Vec<char> = Vec::new();
        push_dec(&mut year_chars, earliest.year);
        let year = chars_to_string(&year_chars);
        let mut month_chars: Vec<char> = Vec::new();
        push_pad2(&mut month_chars, earliest.month);
        let month = chars_to_string(&month_chars);
        let id = Self::format_id(&earliest);
        let file_created_at = Self::format_file_created_at(&earliest);
        let stats = Self::generate_activity_stats(tweets);
        let formatted_tweets = Self::format_tweets(tweets);
        let inp = MonthlyTweetsTemplateInput {
            id,
            file_created_at,
            month,
            year,
            stats,
            tweets: formatted_tweets,
        };
        proof {
            assert(year_chars@ =~= dec_chars(earliest.year as int));
            assert(month_chars@ =~= pad2(earliest.month as int));
            assert(earliest_of(tweets@, earliest) && inp.id@ == id_chars(earliest)
                && inp.file_created_at@ == datetime_chars(earliest) && inp.year@ == dec_chars(
                earliest.year as int,
            ) && inp.month@ == pad2(earliest.month as int));
        }
        Ok(inp)
    }
}

} // verus!
