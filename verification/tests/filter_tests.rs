use twitter2obsidian::filter::{
    filter_tweet_by_end_month, filter_tweet_by_start_month, group_by_month, parse_month, YearMonth,
};
use twitter2obsidian::tweet::{DateTime, Tweet};
use twitter2obsidian::Error;

fn local(year: u32, month: u32, day: u32, hour: u32, minute: u32, second: u32) -> DateTime {
    DateTime { year, month, day, hour, minute, second, millisecond: 0 }
}

fn post(dt: DateTime, text: &str) -> Tweet {
    Tweet::new_with_local_datetime(dt, text.to_string(), false)
}

#[test]
fn parse_month_reads_year_and_month() {
    assert_eq!(parse_month("2023-03"), Ok(YearMonth { year: 2023, month: 3 }));
    assert_eq!(parse_month("0001-12"), Ok(YearMonth { year: 1, month: 12 }));
}

#[test]
fn parse_month_rejects_malformed_bounds() {
    assert_eq!(parse_month("2023-13"), Err(Error::InvalidMonthBound));
    assert_eq!(parse_month("2023-00"), Err(Error::InvalidMonthBound));
    assert_eq!(parse_month("2023-3"), Err(Error::InvalidMonthBound));
    assert_eq!(parse_month("202303"), Err(Error::InvalidMonthBound));
    assert_eq!(parse_month("abcd-ef"), Err(Error::InvalidMonthBound));
    assert_eq!(parse_month(""), Err(Error::InvalidMonthBound));
}

#[test]
fn month_filters_keep_their_boundary_month_whole() {
    // The first instant of the end month is retained; the first instant of the
    // month after it is excluded.
    let first_of_april = post(local(2023, 4, 1, 0, 0, 0), "april");
    let first_of_may = post(local(2023, 5, 1, 0, 0, 0), "may");
    let kept = filter_tweet_by_end_month(
        vec![first_of_april.clone(), first_of_may.clone()],
        "2023-04",
    )
    .unwrap();
    assert_eq!(kept.len(), 1);
    assert_eq!(kept[0].full_text(), "april");

    // The first instant of the start month is retained; anything before the
    // month is excluded.
    let last_of_march = post(local(2023, 3, 31, 23, 59, 59), "march");
    let kept = filter_tweet_by_start_month(
        vec![last_of_march, first_of_april],
        "2023-04",
    )
    .unwrap();
    assert_eq!(kept.len(), 1);
    assert_eq!(kept[0].full_text(), "april");
}

#[test]
fn month_filters_keep_input_order_and_compose() {
    let a = post(local(2023, 2, 10, 1, 0, 0), "feb");
    let b = post(local(2023, 3, 10, 1, 0, 0), "mar");
    let c = post(local(2023, 4, 10, 1, 0, 0), "apr");
    let d = post(local(2023, 5, 10, 1, 0, 0), "may");
    let all = vec![a, b, c, d];
    let once = filter_tweet_by_start_month(all, "2023-03").unwrap();
    let twice = filter_tweet_by_end_month(once, "2023-04").unwrap();
    let texts: Vec<&str> = twice.iter().map(|t| t.full_text()).collect();
    assert_eq!(texts, vec!["mar", "apr"]);
}

#[test]
fn month_filters_reject_malformed_bounds() {
    let a = post(local(2023, 2, 10, 1, 0, 0), "feb");
    assert!(filter_tweet_by_start_month(vec![a.clone()], "2023").is_err());
    assert!(filter_tweet_by_end_month(vec![a], "03-2023").is_err());
}

#[test]
fn grouping_is_a_partition_by_local_month() {
    let a = post(local(2023, 3, 15, 0, 0, 0), "a");
    let b = post(local(2023, 4, 1, 5, 0, 0), "b");
    let c = post(local(2023, 3, 2, 9, 0, 0), "c");
    let d = post(local(2024, 3, 2, 9, 0, 0), "d");
    let groups = group_by_month(&vec![a, b, c, d]);
    assert_eq!(groups.len(), 3);
    // Groups appear in first-met order and carry year*100+month keys.
    assert_eq!(groups[0].key, 202303);
    assert_eq!(groups[1].key, 202304);
    assert_eq!(groups[2].key, 202403);
    let texts0: Vec<&str> = groups[0].tweets.iter().map(|t| t.full_text()).collect();
    assert_eq!(texts0, vec!["a", "c"]);
    assert_eq!(groups[1].tweets.len(), 1);
    assert_eq!(groups[2].tweets.len(), 1);
    // Every post lies in exactly one group.
    let total: usize = groups.iter().map(|g| g.tweets.len()).sum();
    assert_eq!(total, 4);
}

#[test]
fn group_file_names_come_from_the_key() {
    let a = post(local(2023, 3, 15, 0, 0, 0), "a");
    let groups = group_by_month(&vec![a]);
    assert_eq!(groups.len(), 1);
    assert_eq!(groups[0].output_file_name(), "tweets_202303.md");
}

#[test]
fn zero_posts_give_zero_groups() {
    let groups = group_by_month(&vec![]);
    assert_eq!(groups.len(), 0);
}
