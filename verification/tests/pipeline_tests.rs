use halcyon::compact::assign_offsets;
use halcyon::compact::compact_dictionary;
use halcyon::compact::filter_occurrences;
use halcyon::hashtags::aggregate_hashtags;
use halcyon::pipeline::count_tag_pairs;
use halcyon::pipeline::derive_tables;
use halcyon::resolve::resolve_references;
use halcyon::rows::GPUHashtag;
use halcyon::rows::PipelineError;
use halcyon::rows::ScoredPost;
use halcyon::rows::Tweet;
use halcyon::segment::segment_times;
use halcyon::sortrows::sort_occs;
use halcyon::sortrows::sort_times;
use halcyon::store::build_store;

fn blank_tweet(id: &str, time: &str) -> Tweet {
    Tweet {
        tweetid: id.to_string(),
        tweet_time: time.to_string(),
        quote_count: String::new(),
        reply_count: String::new(),
        like_count: String::new(),
        retweet_count: String::new(),
        in_reply_to_tweetid: String::new(),
        quoted_tweet_tweetid: String::new(),
        is_retweet: String::new(),
        retweet_tweetid: String::new(),
        hashtags: String::new(),
    }
}

/// The engagement scorer of the surrounding program: decimal decode with
/// silent zero fallback, summed as floats, truncated toward zero.
fn scored(tweet: Tweet) -> ScoredPost {
    let decode = |s: &String| -> f64 {
        if s.is_empty() { 0.0 } else { s.parse().unwrap_or(0.0) }
    };
    let score = decode(&tweet.quote_count) + decode(&tweet.reply_count) + decode(&tweet.like_count)
        + decode(&tweet.retweet_count);
    ScoredPost { tweet, score: score as u64, score_positive: score > 0.0 }
}

// 2020-01-01 00:00 UTC
const T0: i64 = 1577836800;

#[test]
fn store_is_last_write_wins() {
    let mut a = blank_tweet("1", "2020-01-01 00:00");
    a.like_count = "1".to_string();
    let mut b = blank_tweet("1", "2020-01-01 05:00");
    b.like_count = "9".to_string();
    let store = build_store(vec![scored(a), scored(b)]).unwrap();
    assert_eq!(store.posts.len(), 1);
    assert_eq!(store.posts[0].id, 1);
    assert_eq!(store.posts[0].post.tweet.tweet_time, "2020-01-01 05:00");
    assert_eq!(store.posts[0].post.score, 9);
}

#[test]
fn store_rejects_bad_identifier() {
    let t = blank_tweet("x9", "2020-01-01 00:00");
    assert_eq!(build_store(vec![scored(t)]).unwrap_err(), PipelineError::InvalidPostId);
}

#[test]
fn reference_precedence_quote_over_reply_over_retweet() {
    let mut five = blank_tweet("5", "2020-01-01 01:00");
    five.like_count = "0".to_string();
    let nine = blank_tweet("9", "2020-01-01 02:00");
    let mut p = blank_tweet("1", "2020-01-01 03:00");
    p.is_retweet = "True".to_string();
    p.retweet_tweetid = "7".to_string();
    p.in_reply_to_tweetid = "5".to_string();
    p.quoted_tweet_tweetid = "9".to_string();
    let store = build_store(vec![scored(five), scored(nine), scored(p)]).unwrap();
    let (times, conns) = resolve_references(&store).unwrap();
    // only the referencing post is eligible
    assert_eq!(times.len(), 1);
    assert_eq!(times[0].tweet_time, T0 + 3 * 3600);
    // the quote wins: the connection pairs post 9's time with the post's own
    assert_eq!(conns.len(), 1);
    assert_eq!(conns[0].tweet_time, T0 + 2 * 3600);
    assert_eq!(conns[0].ref_tweet_time, T0 + 3 * 3600);
}

#[test]
fn unresolved_reference_keeps_time_row_but_no_connection() {
    let mut p = blank_tweet("1", "2020-01-01 00:00");
    p.in_reply_to_tweetid = "42".to_string();
    let store = build_store(vec![scored(p)]).unwrap();
    let (times, conns) = resolve_references(&store).unwrap();
    assert_eq!(times.len(), 1);
    assert!(conns.is_empty());
}

#[test]
fn retweet_target_must_be_numeric() {
    let mut p = blank_tweet("1", "2020-01-01 00:00");
    p.is_retweet = "True".to_string();
    p.retweet_tweetid = "zz".to_string();
    let store = build_store(vec![scored(p)]).unwrap();
    assert_eq!(resolve_references(&store).unwrap_err(), PipelineError::InvalidReferenceId);
}

#[test]
fn malformed_timestamp_is_fatal() {
    let mut p = blank_tweet("1", "not a time");
    p.like_count = "1".to_string();
    let store = build_store(vec![scored(p)]).unwrap();
    assert_eq!(resolve_references(&store).unwrap_err(), PipelineError::InvalidTimestamp);
    assert_eq!(derive_tables(&store, 500).unwrap_err(), PipelineError::InvalidTimestamp);
}

#[test]
fn ineligible_post_timestamp_is_still_checked() {
    // no score, no references: the post is ineligible, yet its malformed
    // timestamp still aborts the run
    let p = blank_tweet("1", "2020-13-01 00:00");
    let store = build_store(vec![scored(p)]).unwrap();
    assert_eq!(resolve_references(&store).unwrap_err(), PipelineError::InvalidTimestamp);
}

#[test]
fn hashtag_ids_first_seen_order() {
    let mut a = blank_tweet("1", "2020-01-01 00:00");
    a.hashtags = "[b, a, b]".to_string();
    let mut b = blank_tweet("2", "2020-01-01 01:00");
    b.hashtags = "[c, a]".to_string();
    let store = build_store(vec![scored(a), scored(b)]).unwrap();
    let (dict, occs) = aggregate_hashtags(&store).unwrap();
    let entries = &dict.entries;
    assert_eq!(entries.len(), 3);
    assert_eq!((entries[0].text.as_str(), entries[0].id, entries[0].count), ("b", 1, 2));
    assert_eq!((entries[1].text.as_str(), entries[1].id, entries[1].count), ("a", 2, 2));
    assert_eq!((entries[2].text.as_str(), entries[2].id, entries[2].count), ("c", 3, 1));
    // one occurrence per (post, tag) pair, duplicates included, offset 0
    assert_eq!(occs.len(), 5);
    let ids: Vec<u64> = occs.iter().map(|o| o.hash_id).collect();
    assert_eq!(ids, vec![1, 2, 1, 3, 2]);
    assert!(occs.iter().all(|o| o.offset == 0));
}

#[test]
fn hashtag_texts_are_trimmed() {
    let mut a = blank_tweet("1", "2020-01-01 00:00");
    a.hashtags = "[ news , x]".to_string();
    let store = build_store(vec![scored(a)]).unwrap();
    let (dict, occs) = aggregate_hashtags(&store).unwrap();
    assert_eq!(dict.entries[0].text, "news");
    assert_eq!(dict.entries[1].text, "x");
    assert_eq!(occs[0].text, "news");
}

#[test]
fn compaction_asymmetry_at_threshold() {
    // tag "a": 2 occurrences, tag "b": 3; threshold 2
    let mut p = blank_tweet("1", "2020-01-01 00:00");
    p.hashtags = "[a, b, a, b, b]".to_string();
    let store = build_store(vec![scored(p)]).unwrap();
    let (dict, occs) = aggregate_hashtags(&store).unwrap();
    let ids = compact_dictionary(&dict, 2);
    // "a" (count == 2) survives the dictionary filter with a dense id
    assert_eq!(ids.len(), 2);
    assert_eq!((ids[0].text.as_str(), ids[0].hash_id, ids[0].new_id, ids[0].count), ("a", 1, 0, 2));
    assert_eq!((ids[1].text.as_str(), ids[1].hash_id, ids[1].new_id, ids[1].count), ("b", 2, 1, 3));
    // but only "b" (count > 2) keeps occurrences
    let kept = filter_occurrences(occs, &dict, 2);
    assert_eq!(kept.len(), 3);
    assert!(kept.iter().all(|o| o.text == "b"));
}

#[test]
fn offsets_ascend_within_equal_timestamps() {
    let occ = |t: i64, id: u64| GPUHashtag {
        tweet_time: t,
        hash_id: id,
        offset: 0,
        text: "t".to_string(),
    };
    // arrive unsorted; sorting, then the walk, assigns 0,1,2 at T and 0 at T+1
    let rows = vec![occ(T0 + 1, 4), occ(T0, 1), occ(T0, 2), occ(T0, 3)];
    let sorted = sort_occs(rows);
    let ids = Vec::new();
    let out = assign_offsets(sorted, &ids);
    let got: Vec<(i64, u64)> = out.iter().map(|o| (o.tweet_time, o.offset)).collect();
    assert_eq!(got, vec![(T0, 0), (T0, 1), (T0, 2), (T0 + 1, 0)]);
    // with an empty compacted dictionary every id remaps to the default 0
    assert!(out.iter().all(|o| o.hash_id == 0));
}

#[test]
fn segmentation_emits_run_length_per_element() {
    let mk = |t: i64| halcyon::rows::GPUTweetTime { tweet_time: t, tweet_score: 0 };
    let times = vec![mk(T0), mk(T0 + 3600), mk(T0 + 90000)];
    let (segs, scores) = segment_times(&times);
    // the first two form a run of 2 (90000 >= 86400 triggers the boundary),
    // emitted once per element; the open run is never flushed; one trailing
    // count-1 row is always appended
    let counts: Vec<u64> = segs.iter().map(|s| s.tweet_count).collect();
    assert_eq!(counts, vec![2, 2, 1]);
    assert_eq!(scores.len(), 3);
}

#[test]
fn segmentation_boundary_is_exactly_one_day() {
    let mk = |t: i64| halcyon::rows::GPUTweetTime { tweet_time: t, tweet_score: 0 };
    let (segs, _) = segment_times(&vec![mk(T0), mk(T0 + 86400)]);
    let counts: Vec<u64> = segs.iter().map(|s| s.tweet_count).collect();
    assert_eq!(counts, vec![1, 1]);
    let (segs2, _) = segment_times(&vec![mk(T0), mk(T0 + 86399)]);
    let counts2: Vec<u64> = segs2.iter().map(|s| s.tweet_count).collect();
    assert_eq!(counts2, vec![1]);
}

#[test]
fn scores_follow_sorted_time_order() {
    let mk = |t: i64, sc: u64| halcyon::rows::GPUTweetTime { tweet_time: t, tweet_score: sc };
    let sorted = sort_times(vec![mk(T0 + 10, 7), mk(T0, 3), mk(T0 + 5, 5)]);
    let (_, scores) = segment_times(&sorted);
    let got: Vec<u64> = scores.iter().map(|s| s.tweet_score).collect();
    assert_eq!(got, vec![3, 5, 7]);
}

#[test]
fn round_trip_two_posts() {
    let mut a = blank_tweet("1", "2020-01-01 00:00");
    a.like_count = "3".to_string();
    let mut b = blank_tweet("2", "2020-01-01 01:00");
    b.in_reply_to_tweetid = "1".to_string();
    b.hashtags = "[news]".to_string();
    let store = build_store(vec![scored(a), scored(b)]).unwrap();
    assert_eq!(count_tag_pairs(&store), Some(1));
    let tables = derive_tables(&store, 1).unwrap();
    // both posts are eligible: A through its score, B through its reply
    let times: Vec<i64> = tables.times.iter().map(|t| t.tweet_time).collect();
    assert_eq!(times, vec![T0, T0 + 3600]);
    let scores: Vec<u64> = tables.scores.iter().map(|s| s.tweet_score).collect();
    assert_eq!(scores, vec![3, 0]);
    // one connection: B's reply resolves to A
    assert_eq!(tables.connections.len(), 1);
    assert_eq!(tables.connections[0].tweet_time, T0);
    assert_eq!(tables.connections[0].ref_tweet_time, T0 + 3600);
    // both posts are within one day: no run completes, only the trailing row
    let counts: Vec<u64> = tables.segments.iter().map(|s| s.tweet_count).collect();
    assert_eq!(counts, vec![1]);
    // "news" (count 1) survives the >= filter at threshold 1 …
    assert_eq!(tables.hashtag_ids.len(), 1);
    assert_eq!(tables.hashtag_ids[0].text, "news");
    assert_eq!(tables.hashtag_ids[0].new_id, 0);
    // … but contributes no occurrence under the strict > filter
    assert!(tables.occurrences.is_empty());
}

#[test]
fn derive_tables_full_compaction() {
    // three posts across two days; "x" appears 3 times, "y" once
    let mut a = blank_tweet("1", "2020-01-01 00:00");
    a.like_count = "1".to_string();
    a.hashtags = "[x, y]".to_string();
    let mut b = blank_tweet("2", "2020-01-02 12:00");
    b.like_count = "2".to_string();
    b.hashtags = "[x, x]".to_string();
    let mut c = blank_tweet("3", "2020-01-02 13:00");
    c.like_count = "4".to_string();
    let store = build_store(vec![scored(a), scored(b), scored(c)]).unwrap();
    let tables = derive_tables(&store, 1).unwrap();
    // day runs: [day1] completes when day2 begins → one count-1 row, then
    // the trailing hack row
    let counts: Vec<u64> = tables.segments.iter().map(|s| s.tweet_count).collect();
    assert_eq!(counts, vec![1, 1]);
    // compaction: "x" (3 > 1) keeps occurrences, "y" (1 >= 1) only the entry
    assert_eq!(tables.hashtag_ids.len(), 2);
    assert_eq!(tables.hashtag_ids[0].text, "x");
    assert_eq!(tables.hashtag_ids[1].text, "y");
    assert_eq!(tables.occurrences.len(), 3);
    // "x" has original id 1, remapped to dense id 0
    assert!(tables.occurrences.iter().all(|o| o.hash_id == 0));
    // two of the three share post B's timestamp: offsets 0,1 there
    let got: Vec<(i64, u64)> = tables.occurrences.iter().map(|o| (o.tweet_time, o.offset)).collect();
    let day2 = T0 + 36 * 3600;
    assert_eq!(got, vec![(T0, 0), (day2, 0), (day2, 1)]);
}
