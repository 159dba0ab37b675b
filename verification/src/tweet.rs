use vstd::prelude::*;

use crate::Error;
use crate::chars::{pad2, pad4, push_pad2, push_pad4, chars_to_string};
use chrono::{Datelike, Timelike};

verus! {

/// A calendar date and time in plain fields, with the sub-second part
/// in milliseconds.
#[derive(Debug, Clone, Copy, PartialEq, Eq, Structural)]
pub struct DateTime {
    pub year: u32,
    pub month: u32,
    pub day: u32,
    pub hour: u32,
    pub minute: u32,
    pub second: u32,
    pub millisecond: u32,
}

impl DateTime {
    /// The fields form a plausible calendar time with a four-digit year.
    pub open spec fn wf(self) -> bool {
        self.year <= 9999 && 1 <= self.month <= 12 && 1 <= self.day <= 31 && self.hour <= 23
            && self.minute <= 59 && self.second <= 59 && self.millisecond <= 999
    }

    /// Chronological order on calendar times: lexicographic over the fields,
    /// from the year down to the millisecond.
    pub open spec fn le(self, o: DateTime) -> bool {
        if self.year != o.year {
            self.year < o.year
        } else if self.month != o.month {
            self.month < o.month
        } else if self.day != o.day {
            self.day < o.day
        } else if self.hour != o.hour {
            self.hour < o.hour
        } else if self.minute != o.minute {
            self.minute < o.minute
        } else if self.second != o.second {
            self.second < o.second
        } else {
            self.millisecond <= o.millisecond
        }
    }

    /// Whether this time is chronologically no later than `o`.
    pub fn is_no_later_than(&self, o: &DateTime) -> (r: bool)
        ensures
            r == self.le(*o),
    {
        if self.year != o.year {
            self.year < o.year
        } else if self.month != o.month {
            self.month < o.month
        } else if self.day != o.day {
            self.day < o.day
        } else if self.hour != o.hour {
            self.hour < o.hour
        } else if self.minute != o.minute {
            self.minute < o.minute
        } else if self.second != o.second {
            self.second < o.second
        } else {
            self.millisecond <= o.millisecond
        }
    }

    /// Whether the fields form a plausible calendar time (the executable form
    /// of `wf`, for callers outside verified code).
    pub fn is_valid(&self) -> (r: bool)
        ensures
            r == self.wf(),
    {
        self.year <= 9999 && 1 <= self.month && self.month <= 12 && 1 <= self.day && self.day <= 31
            && self.hour <= 23 && self.minute <= 59 && self.second <= 59 && self.millisecond <= 999
    }
}

/// The canonical `YYYY-MM-DD HH:MM:SS` form of a calendar time.
pub open spec fn datetime_chars(dt: DateTime) -> Seq<char> {
    pad4(dt.year as int) + seq!['-'] + pad2(dt.month as int) + seq!['-'] + pad2(dt.day as int)
        + seq![' '] + pad2(dt.hour as int) + seq![':'] + pad2(dt.minute as int) + seq![':'] + pad2(
        dt.second as int,
    )
}

/// Whether `s` is a timestamp in the archive's fixed source format
/// (`<weekday> <month> <day> <HH:MM:SS> <+HHMM offset> <year>`), exactly as
/// `chrono::DateTime::parse_from_str` accepts it with `%a %b %d %H:%M:%S %z %Y`.
pub uninterp spec fn twitter_date_ok(s: Seq<char>) -> bool;

/// The UTC calendar fields (year, month, day, hour, minute, second,
/// millisecond) denoted by a timestamp in the source format; a function of the
/// string alone, since the string carries its own offset.
pub uninterp spec fn twitter_date_utc(s: Seq<char>) -> (int, int, int, int, int, int, int);

/// Relies on `chrono::DateTime::parse_from_str` with the fixed source format,
/// followed by `with_timezone(&chrono::Utc)`: parsing succeeds on exactly the
/// strings the format accepts, the UTC fields depend on the string alone, and
/// `Datelike`/`Timelike` document month in 1..=12, day in 1..=31, hour in
/// 0..=23, minute and second in 0..=59.
#[verifier::external_body]
fn chrono_parse_utc(s: &str) -> (r: Option<(i32, u32, u32, u32, u32, u32, u32)>)
    ensures
        r is Some <==> twitter_date_ok(s@),
        r is Some ==> {
            let t = r->0;
            &&& (
                t.0 as int,
                t.1 as int,
                t.2 as int,
                t.3 as int,
                t.4 as int,
                t.5 as int,
                t.6 as int,
            ) == twitter_date_utc(s@)
            &&& 1 <= t.1 <= 12
            &&& 1 <= t.2 <= 31
            &&& t.3 <= 23
            &&& t.4 <= 59
            &&& t.5 <= 59
        },
{
    match chrono::DateTime::parse_from_str(s, "%a %b %d %H:%M:%S %z %Y") {
        Ok(dt) => {
            let u = dt.with_timezone(&chrono::Utc);
            Some((u.year(), u.month(), u.day(), u.hour(), u.minute(), u.second(),
            u.timestamp_subsec_millis()))
        },
        Err(_) => None,
    }
}

/// Relies on the same `chrono` parse, followed by `with_timezone(&chrono::Local)`:
/// success depends on the string alone, but the local calendar fields also depend
/// on the machine's time zone, so only their documented ranges are stated.
#[verifier::external_body]
fn chrono_parse_local(s: &str) -> (r: Option<(i32, u32, u32, u32, u32, u32, u32)>)
    ensures
        r is Some <==> twitter_date_ok(s@),
        r is Some ==> {
            let t = r->0;
            &&& 1 <= t.1 <= 12
            &&& 1 <= t.2 <= 31
            &&& t.3 <= 23
            &&& t.4 <= 59
            &&& t.5 <= 59
        },
{
    match chrono::DateTime::parse_from_str(s, "%a %b %d %H:%M:%S %z %Y") {
        Ok(dt) => {
            let l = dt.with_timezone(&chrono::Local);
            Some((l.year(), l.month(), l.day(), l.hour(), l.minute(), l.second(),
            l.timestamp_subsec_millis()))
        },
        Err(_) => None,
    }
}

/// Whether raw calendar fields fit the model: a four-digit year and a
/// sub-second count below one second.
pub open spec fn fields_storable(t: (int, int, int, int, int, int, int)) -> bool {
    0 <= t.0 <= 9999 && t.6 <= 999
}

/// Builds a `DateTime` out of raw parsed fields, rejecting those that do not
/// fit the model.
fn datetime_of_fields(t: (i32, u32, u32, u32, u32, u32, u32)) -> (r: Option<DateTime>)
    requires
        1 <= t.1 <= 12,
        1 <= t.2 <= 31,
        t.3 <= 23,
        t.4 <= 59,
        t.5 <= 59,
    ensures
        r is Some <==> fields_storable(
            (t.0 as int, t.1 as int, t.2 as int, t.3 as int, t.4 as int, t.5 as int, t.6 as int),
        ),
        r is Some ==> {
            let dt = r->0;
            &&& dt.wf()
            &&& dt.year == t.0
            &&& dt.month == t.1
            &&& dt.day == t.2
            &&& dt.hour == t.3
            &&& dt.minute == t.4
            &&& dt.second == t.5
            &&& dt.millisecond == t.6
        },
{
    if 0 <= t.0 && t.0 <= 9999 && t.6 <= 999 {
        Some(
            DateTime {
                year: t.0 as u32,
                month: t.1,
                day: t.2,
                hour: t.3,
                minute: t.4,
                second: t.5,
                millisecond: t.6,
            },
        )
    } else {
        None
    }
}

/// Reads a timestamp in the fixed source format and returns the UTC calendar
/// time it denotes. Returns `None` when the string does not parse, or when the
/// parsed fields do not fit the model (`fields_storable`).
pub fn parse_twitter_date(date: &str) -> (r: Option<DateTime>)
    ensures
        r is Some <==> twitter_date_ok(date@) && fields_storable(twitter_date_utc(date@)),
        r is Some ==> {
            let dt = r->0;
            &&& dt.wf()
            &&& (
                dt.year as int,
                dt.month as int,
                dt.day as int,
                dt.hour as int,
                dt.minute as int,
                dt.second as int,
                dt.millisecond as int,
            ) == twitter_date_utc(date@)
        },
{
    match chrono_parse_utc(date) {
        Some(t) => datetime_of_fields(t),
        None => None,
    }
}

/// Whether a post body marks a re-shared post: it begins with `RT @`.
pub open spec fn retweet_text(s: Seq<char>) -> bool {
    s.len() >= 4 && s[0] == 'R' && s[1] == 'T' && s[2] == ' ' && s[3] == '@'
}

/// One social-media post: its creation time in the local time zone, its body
/// text, and whether it answers another post.
#[derive(Debug)]
pub struct Tweet {
    pub created_at: DateTime,
    pub full_text: String,
    pub is_reply: bool,
}

impl Clone for Tweet {
    fn clone(&self) -> (r: Self)
        ensures
            r == *self,
    {
        Tweet {
            created_at: self.created_at,
            full_text: self.full_text.clone(),
            is_reply: self.is_reply,
        }
    }
}

impl Tweet {
    /// The creation time is a plausible calendar time.
    pub open spec fn wf(self) -> bool {
        self.created_at.wf()
    }

    /// Reads the timestamp in the fixed source format, takes its local
    /// calendar time, and builds the post. Fails when the timestamp does not
    /// parse; a parsed time whose local fields do not fit the model (a year
    /// beyond four digits, or a sub-second count of a second or more) is
    /// rejected the same way.
    pub fn new(created_at: String, full_text: String, is_reply: bool) -> (r: Result<Tweet, Error>)
        ensures
            r is Ok ==> twitter_date_ok(created_at@),
            !twitter_date_ok(created_at@) ==> r is Err,
            r is Err ==> r == Err::<Tweet, Error>(Error::InvalidTimestamp),
            r is Ok ==> {
                let t = r->Ok_0;
                &&& t.wf()
                &&& t.full_text == full_text
                &&& t.is_reply == is_reply
            },
    {
        match chrono_parse_local(created_at.as_str()) {
            Some(fields) => match datetime_of_fields(fields) {
                Some(dt) => Ok(Tweet { created_at: dt, full_text, is_reply }),
                None => Err(Error::InvalidTimestamp),
            },
            None => Err(Error::InvalidTimestamp),
        }
    }

    /// The creation time, in the local calendar.
    pub fn created_at(&self) -> (r: DateTime)
        ensures
            r == self.created_at,
    {
        self.created_at
    }

    /// The raw body text.
    pub fn full_text(&self) -> (r: &str)
        ensures
            r@ == self.full_text@,
    {
        self.full_text.as_str()
    }

    /// Whether the post answers another post.
    pub fn is_reply(&self) -> (r: bool)
        ensures
            r == self.is_reply,
    {
        self.is_reply
    }

    /// Whether the post is a re-share: its body begins with `RT @`.
    pub fn is_retweet(&self) -> (r: bool)
        ensures
            r == retweet_text(self.full_text@),
    {
        let s = self.full_text.as_str();
        let n = s.unicode_len();
        n >= 4 && s.get_char(0) == 'R' && s.get_char(1) == 'T' && s.get_char(2) == ' '
            && s.get_char(3) == '@'
    }

    /// Builds a post from an already-resolved local calendar time.
    pub fn new_with_local_datetime(created_at: DateTime, full_text: String, is_reply: bool) -> (r:
        Tweet)
        ensures
            r.created_at == created_at,
            r.full_text == full_text,
            r.is_reply == is_reply,
    {
        Tweet { created_at, full_text, is_reply }
    }
}

/// Whether `s` is one JSON array (with surrounding whitespace), exactly as
/// `serde_json::from_str::<Vec<Value>>` accepts it; a function of the text alone.
pub uninterp spec fn json_array_ok(s: Seq<char>) -> bool;

/// Relies on `serde_json::from_str::<Vec<serde_json::Value>>`: it returns `Ok`
/// exactly when the text is one JSON array.
#[verifier::external_body]
fn json_parse_array(s: &str) -> (r: Option<Vec<serde_json::Value>>)
    ensures
        r is Some <==> json_array_ok(s@),
{
    serde_json::from_str::<Vec<serde_json::Value>>(s).ok()
}

#[verifier::external_type_specification]
#[verifier::external_body]
pub struct ExValue(serde_json::Value);

/// Relies on `serde_json::Value::get` with a string key: the member of a JSON
/// object under that key, `None` for other values or a missing key.
#[verifier::external_body]
fn json_get<'a>(v: &'a serde_json::Value, key: &str) -> (r: Option<&'a serde_json::Value>) {
    v.get(key)
}

/// Relies on `serde_json::Value::as_str`: the content of a JSON string,
/// `None` for other values.
#[verifier::external_body]
fn json_as_string(v: &serde_json::Value) -> (r: Option<String>) {
    match v.as_str() {
        Some(s) => Some(s.to_string()),
        None => None,
    }
}

/// Relies on `serde_json::Value::is_null`: whether the value is JSON `null`.
#[verifier::external_body]
fn json_is_null(v: &serde_json::Value) -> (r: bool) {
    v.is_null()
}

/// Reads one archive record: the `tweet` object must carry a `created_at`
/// string that parses in the source format and a `full_text` string; a missing
/// or non-null `in_reply_to_user_id` marks a reply. Any shortfall is an error.
fn tweet_of_record(v: &serde_json::Value) -> (r: Result<Tweet, Error>)
    ensures
        r is Ok ==> r->Ok_0.wf(),
{
    let record = match json_get(v, "tweet") {
        Some(t) => t,
        None => { return Err(Error::MissingField) },
    };
    let created_at = match json_get(record, "created_at") {
        Some(c) => match json_as_string(c) {
            Some(s) => s,
            None => { return Err(Error::MissingField) },
        },
        None => { return Err(Error::MissingField) },
    };
    let full_text = match json_get(record, "full_text") {
        Some(c) => match json_as_string(c) {
            Some(s) => s,
            None => { return Err(Error::MissingField) },
        },
        None => { return Err(Error::MissingField) },
    };
    let is_reply = match json_get(record, "in_reply_to_user_id") {
        Some(rv) => !json_is_null(rv),
        None => false,
    };
    Tweet::new(created_at, full_text, is_reply)
}

/// Parses the archive text, a JSON array of records, into posts in source
/// order. Any record that lacks a required field or bears an unreadable
/// timestamp fails the whole batch.
pub fn parse_tweets(tweets: &str) -> (r: Result<Vec<Tweet>, Error>)
    ensures
        r is Ok ==> json_array_ok(tweets@),
        !json_array_ok(tweets@) ==> r == Err::<Vec<Tweet>, Error>(Error::InvalidArchive),
        r is Ok ==> forall|i: int|
            0 <= i < r->Ok_0.len() ==> (#[trigger] r->Ok_0[i]).wf(),
{
    let values = match json_parse_array(tweets) {
        Some(vs) => vs,
        None => { return Err(Error::InvalidArchive) },
    };
    let mut out: Vec<Tweet> = Vec::new();
    let n = values.len();
    let mut i: usize = 0;
    while i < n
        invariant
            json_array_ok(tweets@),
            n == values.len(),
            i <= n,
            forall|k: int| 0 <= k < out.len() ==> (#[trigger] out[k]).wf(),
        decreases n - i,
    {
        match tweet_of_record(&values[i]) {
            Ok(t) => out.push(t),
            Err(e) => { return Err(e) },
        }
        i = i + 1;
    }
    Ok(out)
}

/// The suffix of `s` that begins at its first `[`; empty when there is none.
pub open spec fn array_suffix(s: Seq<char>) -> Seq<char>
    decreases s.len(),
{
    if s.len() == 0 {
        s
    } else if s[0] == '[' {
        s
    } else {
        array_suffix(s.skip(1))
    }
}

/// Drops any non-JSON preamble: returns the suffix of `s` from its first `[`
/// on, or the empty string when `s` has no `[`.
pub fn skip_to_json_array(s: &str) -> (r: &str)
    ensures
        r@ == array_suffix(s@),
{
    let n = s.unicode_len();
    let mut i: usize = 0;
    proof {
        assert(s@.skip(0) =~= s@);
    }
    while i < n && s.get_char(i) != '['
        invariant
            i <= n,
            n == s@.len(),
            array_suffix(s@) == array_suffix(s@.skip(i as int)),
            i < n ==> s@.skip(i as int)[0] == s@[i as int],
        decreases n - i,
    {
        proof {
            assert(s@.skip(i as int)[0] == s@[i as int]);
            assert(s@.skip(i as int).skip(1) =~= s@.skip(i as int + 1));
        }
        i = i + 1;
    }
    proof {
        if i < n {
            assert(s@.skip(i as int)[0] == s@[i as int]);
        } else {
            assert(s@.skip(i as int).len() == 0);
        }
    }
    s.substring_char(i, n)
}

/// The canonical `YYYY-MM-DD HH:MM:SS` form of a calendar time.
pub fn format_datetime(dt: &DateTime) -> (r: String)
    requires
        dt.wf(),
    ensures
        r@ == datetime_chars(*dt),
{
    let mut out: Vec<char> = Vec::new();
    push_pad4(&mut out, dt.year);
    out.push('-');
    push_pad2(&mut out, dt.month);
    out.push('-');
    push_pad2(&mut out, dt.day);
    out.push(' ');
    push_pad2(&mut out, dt.hour);
    out.push(':');
    push_pad2(&mut out, dt.minute);
    out.push(':');
    push_pad2(&mut out, dt.second);
    proof {
        assert(out@ =~= datetime_chars(*dt));
    }
    chars_to_string(&out)
}

} // verus!
