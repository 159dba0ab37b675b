use twitter2obsidian::monthly_tweets::{MonthlyTweetsTemplateInput, TweetCountByHour};
use twitter2obsidian::tweet::{DateTime, Tweet};
use twitter2obsidian::Error;

fn local(year: u32, month: u32, day: u32, hour: u32, minute: u32, second: u32) -> DateTime {
    DateTime { year, month, day, hour, minute, second, millisecond: 0 }
}

#[test]
fn test_format_id() {
    let created_at = local(2023, 3, 11, 4, 12, 48);
    let id = MonthlyTweetsTemplateInput::format_id(&created_at);
    assert_eq!(id, "20230311041248000");
}

#[test]
fn test_format_file_created_at() {
    let created_at = local(2023, 3, 11, 4, 12, 48);
    let file_created_at = MonthlyTweetsTemplateInput::format_file_created_at(&created_at);
    assert_eq!(file_created_at, "2023-03-11 04:12:48");
}

#[test]
fn test_generate_activity_stats() {
    let tweet1 = Tweet::new_with_local_datetime(
        local(2023, 3, 15, 0, 12, 48),
        "tweet1".to_string(),
        false,
    );
    let tweet2 = Tweet::new_with_local_datetime(
        local(2023, 3, 12, 2, 12, 48),
        "RT @hoge: tweet2".to_string(),
        false,
    );
    let tweet3 = Tweet::new_with_local_datetime(
        local(2023, 3, 14, 23, 12, 48),
        "@hoge tweet3".to_string(),
        true,
    );
    let actual =
        MonthlyTweetsTemplateInput::generate_activity_stats(&vec![tweet1, tweet2, tweet3]);
    let expected_by_hour = vec![
        TweetCountByHour { hour: 0, tweet_count: 1, retweet_count: 0, reply_count: 0 },
        TweetCountByHour::new(1),
        TweetCountByHour { hour: 2, tweet_count: 1, retweet_count: 1, reply_count: 0 },
        TweetCountByHour::new(3),
        TweetCountByHour::new(4),
        TweetCountByHour::new(5),
        TweetCountByHour::new(6),
        TweetCountByHour::new(7),
        TweetCountByHour::new(8),
        TweetCountByHour::new(9),
        TweetCountByHour::new(10),
        TweetCountByHour::new(11),
        TweetCountByHour::new(12),
        TweetCountByHour::new(13),
        TweetCountByHour::new(14),
        TweetCountByHour::new(15),
        TweetCountByHour::new(16),
        TweetCountByHour::new(17),
        TweetCountByHour::new(18),
        TweetCountByHour::new(19),
        TweetCountByHour::new(20),
        TweetCountByHour::new(21),
        TweetCountByHour::new(22),
        TweetCountByHour { hour: 23, tweet_count: 1, retweet_count: 0, reply_count: 1 },
    ];
    for (a, e) in actual.tweet_count_by_hour.iter().zip(expected_by_hour.iter()) {
        assert_eq!(a, e);
    }
    assert_eq!(actual.tweet_count, 3);
    assert_eq!(actual.retweet_count, 1);
    assert_eq!(actual.reply_count, 1);
}

#[test]
fn stats_of_an_empty_group_are_all_zero() {
    let actual = MonthlyTweetsTemplateInput::generate_activity_stats(&vec![]);
    assert_eq!(actual.tweet_count, 0);
    assert_eq!(actual.retweet_count, 0);
    assert_eq!(actual.reply_count, 0);
    assert_eq!(actual.tweet_count_by_hour.len(), 24);
    for (h, b) in actual.tweet_count_by_hour.iter().enumerate() {
        assert_eq!(*b, TweetCountByHour::new(h));
    }
}

#[test]
fn format_tweets_sorts_by_formatted_timestamp() {
    let t1 = Tweet::new_with_local_datetime(local(2023, 3, 15, 0, 12, 48), "c".to_string(), false);
    let t2 = Tweet::new_with_local_datetime(local(2023, 3, 12, 2, 12, 48), "a".to_string(), false);
    let t3 = Tweet::new_with_local_datetime(local(2023, 3, 14, 23, 12, 48), "b".to_string(), false);
    let fts = MonthlyTweetsTemplateInput::format_tweets(&vec![t1, t2, t3]);
    assert_eq!(fts.len(), 3);
    assert_eq!(fts[0].created_at, "2023-03-12 02:12:48");
    assert_eq!(fts[0].text, "a");
    assert_eq!(fts[1].created_at, "2023-03-14 23:12:48");
    assert_eq!(fts[2].created_at, "2023-03-15 00:12:48");
}

#[test]
fn new_builds_the_whole_payload_from_the_earliest_post() {
    let t1 = Tweet::new_with_local_datetime(
        local(2023, 3, 15, 0, 12, 48),
        "tweet1\nmore".to_string(),
        false,
    );
    let t2 = Tweet::new_with_local_datetime(
        local(2023, 3, 12, 2, 12, 48),
        "RT @hoge: tweet2".to_string(),
        false,
    );
    let input = MonthlyTweetsTemplateInput::new(&vec![t1, t2]).unwrap();
    assert_eq!(input.id, "20230312021248000");
    assert_eq!(input.file_created_at, "2023-03-12 02:12:48");
    assert_eq!(input.year, "2023");
    assert_eq!(input.month, "03");
    assert_eq!(input.stats.tweet_count, 2);
    assert_eq!(input.stats.retweet_count, 1);
    assert_eq!(input.tweets.len(), 2);
    assert_eq!(input.tweets[0].text, "RT [[@hoge]]: tweet2");
    assert_eq!(input.tweets[1].text, "tweet1\n  more");
}

#[test]
fn new_rejects_an_empty_group() {
    let r = MonthlyTweetsTemplateInput::new(&vec![]);
    assert_eq!(r.err(), Some(Error::EmptyGroup));
}

#[test]
fn extract_earliest_takes_the_first_of_equal_times() {
    let a = Tweet::new_with_local_datetime(local(2023, 3, 12, 2, 12, 48), "a".to_string(), false);
    let b = Tweet::new_with_local_datetime(local(2023, 3, 12, 2, 12, 48), "b".to_string(), false);
    let earliest =
        MonthlyTweetsTemplateInput::extract_earliest_tweet_created_at(&vec![a, b]);
    assert_eq!(earliest, local(2023, 3, 12, 2, 12, 48));
}
