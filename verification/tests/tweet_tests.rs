use twitter2obsidian::monthly_tweets::MonthlyTweetsTemplateInput;
use twitter2obsidian::tweet::{parse_tweets, parse_twitter_date, skip_to_json_array, DateTime, Tweet};
use twitter2obsidian::Error;

fn dt(year: u32, month: u32, day: u32, hour: u32, minute: u32, second: u32) -> DateTime {
    DateTime { year, month, day, hour, minute, second, millisecond: 0 }
}

#[test]
fn test_parse_twitter_date() {
    let date = "Sat Mar 11 04:12:48 +0000 2023";
    let expected = dt(2023, 3, 11, 4, 12, 48);
    assert_eq!(parse_twitter_date(date), Some(expected));
}

#[test]
fn parse_twitter_date_applies_the_offset() {
    // 23:30 at +0900 on March 11 is 14:30 UTC the same day.
    let date = "Sat Mar 11 23:30:00 +0900 2023";
    let expected = dt(2023, 3, 11, 14, 30, 0);
    assert_eq!(parse_twitter_date(date), Some(expected));
}

#[test]
fn parse_twitter_date_rejects_malformed_text() {
    assert_eq!(parse_twitter_date("2023-03-11 04:12:48"), None);
    assert_eq!(parse_twitter_date(""), None);
    assert_eq!(parse_twitter_date("Sat Mar 99 04:12:48 +0000 2023"), None);
}

#[test]
fn parse_then_format_gives_the_canonical_form() {
    // Round trip: a source-format timestamp parses to a calendar time whose
    // canonical form is the `YYYY-MM-DD HH:MM:SS` string.
    let parsed = parse_twitter_date("Sat Mar 11 04:12:48 +0000 2023").unwrap();
    let formatted = MonthlyTweetsTemplateInput::format_file_created_at(&parsed);
    assert_eq!(formatted, "2023-03-11 04:12:48");
}

#[test]
fn tweet_new_rejects_a_bad_timestamp() {
    let r = Tweet::new("not a date".to_string(), "body".to_string(), false);
    assert_eq!(r.err(), Some(Error::InvalidTimestamp));
}

#[test]
fn tweet_new_keeps_text_and_reply_flag() {
    let t = Tweet::new(
        "Sat Mar 11 04:12:48 +0000 2023".to_string(),
        "RT @hoge: tweet2".to_string(),
        true,
    )
    .unwrap();
    assert_eq!(t.full_text(), "RT @hoge: tweet2");
    assert!(t.is_reply());
    assert!(t.is_retweet());
    assert!(t.created_at().is_valid());
}

#[test]
fn is_retweet_needs_the_full_prefix() {
    let mk = |s: &str| Tweet::new_with_local_datetime(dt(2023, 3, 11, 4, 12, 48), s.to_string(), false);
    assert!(mk("RT @a").is_retweet());
    assert!(!mk("RT a").is_retweet());
    assert!(!mk("RT").is_retweet());
    assert!(!mk("rt @a").is_retweet());
}

#[test]
fn skip_to_json_array_drops_the_preamble() {
    assert_eq!(skip_to_json_array("window.YTD.tweets.part0 = [1, 2]"), "[1, 2]");
    assert_eq!(skip_to_json_array("[1]"), "[1]");
    assert_eq!(skip_to_json_array("no array here"), "");
}

#[test]
fn parse_tweets_reads_records_in_order() {
    let json = "[{\"tweet\":{\"created_at\":\"Sat Mar 11 04:12:48 +0000 2023\",\"full_text\":\"hello @foo\",\"in_reply_to_user_id\":null}},{\"tweet\":{\"created_at\":\"Sun Mar 12 10:00:00 +0000 2023\",\"full_text\":\"RT @bar: hi\",\"in_reply_to_user_id\":\"42\"}}]";
    let tweets = parse_tweets(json).unwrap();
    assert_eq!(tweets.len(), 2);
    assert_eq!(tweets[0].full_text(), "hello @foo");
    assert!(!tweets[0].is_reply());
    assert!(!tweets[0].is_retweet());
    assert_eq!(tweets[1].full_text(), "RT @bar: hi");
    assert!(tweets[1].is_reply());
    assert!(tweets[1].is_retweet());
    assert!(tweets.iter().all(|t| t.created_at().is_valid()));
}

#[test]
fn parse_tweets_rejects_non_array_text() {
    assert_eq!(parse_tweets("{}").err(), Some(Error::InvalidArchive));
    assert_eq!(parse_tweets("").err(), Some(Error::InvalidArchive));
}

#[test]
fn parse_tweets_fails_the_whole_batch_on_one_bad_record() {
    let json = "[{\"tweet\":{\"created_at\":\"Sat Mar 11 04:12:48 +0000 2023\",\"full_text\":\"good\",\"in_reply_to_user_id\":null}},{\"tweet\":{\"full_text\":\"no timestamp\",\"in_reply_to_user_id\":null}}]";
    assert_eq!(parse_tweets(json).err(), Some(Error::MissingField));
    let json2 = "[{\"tweet\":{\"created_at\":\"bad\",\"full_text\":\"x\",\"in_reply_to_user_id\":null}}]";
    assert_eq!(parse_tweets(json2).err(), Some(Error::InvalidTimestamp));
}
