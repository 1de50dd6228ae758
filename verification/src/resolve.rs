//! Reference resolution: per post, decide eligibility, pick the referenced
//! post with quote-over-reply-over-retweet precedence, look the target up
//! in the store, and emit the post-time and connection rows.

use vstd::prelude::*;
use crate::decode::decoded_integer;
use crate::decode::i64_literal_value;
use crate::decode::is_true_flag;
use crate::decode::parses_as_i64;
use crate::decode::try_parse_i64;
use crate::decode::unwrap_integer;
use crate::rows::GPUTweetConnection;
use crate::rows::GPUTweetTime;
use crate::rows::PipelineError;
use crate::rows::ScoredPost;
use crate::rows::StoredPost;
use crate::rows::Tweet;
use crate::shims::parse_timestamp;
use crate::shims::parse_ts;
use crate::shims::ts_in_range;
use crate::store::find_index;
use crate::store::find_post_index;
use crate::store::PostStore;

verus! {

/// Whether the post is flagged as a retweet: the flag text is exactly `True`.
pub open spec fn post_is_retweet(t: Tweet) -> bool {
    t.is_retweet@ == "True"@
}

/// The decoded reply-to identifier (zero where empty or unparsable).
pub open spec fn post_reply_to(t: Tweet) -> int {
    decoded_integer(t.in_reply_to_tweetid@)
}

/// The decoded quoted-post identifier (zero where empty or unparsable).
pub open spec fn post_quoted(t: Tweet) -> int {
    decoded_integer(t.quoted_tweet_tweetid@)
}

/// Eligibility for the time/score/connection tables: a positive engagement
/// score, or any of the three reference kinds.
pub open spec fn post_eligible(p: ScoredPost) -> bool {
    ||| p.score_positive
    ||| post_is_retweet(p.tweet)
    ||| post_reply_to(p.tweet) > 0
    ||| post_quoted(p.tweet) > 0
}

/// The resolved reference target: the retweet target is chosen first, then
/// overwritten by the reply-to identifier, then by the quoted identifier —
/// so a quote wins over a reply, which wins over a retweet. Posts with no
/// reference keep the target zero.
pub open spec fn post_target(t: Tweet) -> int {
    if post_quoted(t) > 0 {
        post_quoted(t)
    } else if post_reply_to(t) > 0 {
        post_reply_to(t)
    } else if post_is_retweet(t) {
        i64_literal_value(t.retweet_tweetid@)
    } else {
        0
    }
}

/// The resolved target as the store's key type.
pub open spec fn post_target_id(t: Tweet) -> i64 {
    post_target(t) as i64
}

/// The first fatal condition one post raises, in processing order: an
/// unparsable retweet-target identifier on a retweet-flagged post; then,
/// for an eligible post whose target resolves, an unparsable referenced
/// timestamp; then an unparsable own timestamp.
pub open spec fn post_fault(s: Seq<StoredPost>, p: ScoredPost) -> Option<PipelineError> {
    if post_is_retweet(p.tweet) && !parses_as_i64(p.tweet.retweet_tweetid@) {
        Some(PipelineError::InvalidReferenceId)
    } else if post_eligible(p) && find_index(s, post_target_id(p.tweet)) >= 0 && parse_ts(
        s[find_index(s, post_target_id(p.tweet))].post.tweet.tweet_time@,
    ) is None {
        Some(PipelineError::InvalidTimestamp)
    } else if parse_ts(p.tweet.tweet_time@) is None {
        Some(PipelineError::InvalidTimestamp)
    } else {
        None
    }
}

/// The first fault at or after position `i` of the store order.
pub open spec fn first_fault_from(s: Seq<StoredPost>, i: int) -> Option<PipelineError>
    decreases s.len() - i,
{
    if i < 0 || i >= s.len() {
        None
    } else {
        match post_fault(s, s[i].post) {
            Option::Some(e) => Some(e),
            Option::None => first_fault_from(s, i + 1),
        }
    }
}

/// The first fault a full resolution pass over the store raises.
pub open spec fn pipeline_fault(s: Seq<StoredPost>) -> Option<PipelineError> {
    first_fault_from(s, 0)
}

/// The post-time rows emitted from position `i` on: one row per eligible
/// post, in store order, with the post's own epoch seconds and its score.
pub open spec fn times_from(s: Seq<StoredPost>, i: int) -> Seq<GPUTweetTime>
    decreases s.len() - i,
{
    if i < 0 || i >= s.len() {
        Seq::<GPUTweetTime>::empty()
    } else {
        let rest = times_from(s, i + 1);
        if post_eligible(s[i].post) {
            seq![
                GPUTweetTime {
                    tweet_time: parse_ts(s[i].post.tweet.tweet_time@)->0,
                    tweet_score: s[i].post.score,
                },
            ] + rest
        } else {
            rest
        }
    }
}

/// The connection rows emitted from position `i` on: one row per eligible
/// post whose target resolves in the store, pairing the referenced post's
/// epoch seconds with the referencing post's own.
pub open spec fn conns_from(s: Seq<StoredPost>, i: int) -> Seq<GPUTweetConnection>
    decreases s.len() - i,
{
    if i < 0 || i >= s.len() {
        Seq::<GPUTweetConnection>::empty()
    } else {
        let rest = conns_from(s, i + 1);
        let f = find_index(s, post_target_id(s[i].post.tweet));
        if post_eligible(s[i].post) && f >= 0 {
            seq![
                GPUTweetConnection {
                    tweet_time: parse_ts(s[f].post.tweet.tweet_time@)->0,
                    ref_tweet_time: parse_ts(s[i].post.tweet.tweet_time@)->0,
                },
            ] + rest
        } else {
            rest
        }
    }
}

/// Whether every row of a time table carries an in-band timestamp.
pub open spec fn times_in_range(s: Seq<GPUTweetTime>) -> bool {
    forall|m: int| 0 <= m < s.len() ==> ts_in_range(#[trigger] s[m].tweet_time)
}

/// Eligibility is monotone in the score and in the three reference flags:
/// strengthening any of the four conditions never withdraws eligibility,
/// and an eligible post satisfies at least one of the four.
pub proof fn lemma_eligibility_monotone(p: ScoredPost, q: ScoredPost)
    requires
        post_eligible(p),
        p.score_positive ==> q.score_positive,
        post_is_retweet(p.tweet) ==> post_is_retweet(q.tweet),
        post_reply_to(p.tweet) > 0 ==> post_reply_to(q.tweet) > 0,
        post_quoted(p.tweet) > 0 ==> post_quoted(q.tweet) > 0,
    ensures
        post_eligible(q),
        p.score_positive || post_is_retweet(p.tweet) || post_reply_to(p.tweet) > 0 || post_quoted(
            p.tweet,
        ) > 0,
{
}

/// Reference precedence: on a retweet-flagged post that also replies to
/// post 5 and quotes post 9, the resolved target is 9.
pub proof fn lemma_reference_precedence(t: Tweet)
    requires
        post_is_retweet(t),
        post_reply_to(t) == 5,
        post_quoted(t) == 9,
    ensures
        post_target(t) == 9,
{
}

/// One resolution pass over the store, in store order: the post-time and
/// connection tables, or the first fatal decode fault.
#[verifier::loop_isolation(false)]
pub fn resolve_references(store: &PostStore) -> (r: Result<
    (Vec<GPUTweetTime>, Vec<GPUTweetConnection>),
    PipelineError,
>)
    ensures
        r matches Ok(tc) ==> pipeline_fault(store.posts@) is None && tc.0@ == times_from(
            store.posts@,
            0,
        ) && tc.1@ == conns_from(store.posts@, 0) && times_in_range(tc.0@),
        r matches Err(e) ==> pipeline_fault(store.posts@) == Some(e),
{
    let ghost s = store.posts@;
    let mut times: Vec<GPUTweetTime> = Vec::new();
    let mut conns: Vec<GPUTweetConnection> = Vec::new();
    let n: usize = store.posts.len();
    let mut i: usize = 0;
    while i < n
        invariant
            0 <= i <= n,
            first_fault_from(s, 0) == first_fault_from(s, i as int),
            times_from(s, 0) =~= times@ + times_from(s, i as int),
            conns_from(s, 0) =~= conns@ + conns_from(s, i as int),
            times_in_range(times@),
        decreases n - i,
    {
        let p = &store.posts[i];
        let is_rt = is_true_flag(&p.post.tweet.is_retweet);
        let reply_to = unwrap_integer(&p.post.tweet.in_reply_to_tweetid);
        let quoted = unwrap_integer(&p.post.tweet.quoted_tweet_tweetid);
        let mut target: i64 = 0;
        if is_rt {
            match try_parse_i64(&p.post.tweet.retweet_tweetid) {
                Option::None => {
                    proof {
                        assert(post_fault(s, s[i as int].post) == Some(
                            PipelineError::InvalidReferenceId,
                        ));
                    }
                    return Err(PipelineError::InvalidReferenceId);
                },
                Option::Some(v) => {
                    target = v;
                },
            }
        }
        if reply_to > 0 {
            target = reply_to;
        }
        if quoted > 0 {
            target = quoted;
        }
        let eligible = p.post.score_positive || is_rt || reply_to > 0 || quoted > 0;
        proof {
            assert(eligible == post_eligible(s[i as int].post));
            if eligible {
                assert(target == post_target_id(s[i as int].post.tweet));
            }
        }
        if eligible {
            let fidx = find_post_index(&store.posts, target);
            let mut ref_time: i64 = 0;
            let mut connected = false;
            match fidx {
                Option::Some(j) => {
                    match parse_timestamp(store.posts[j].post.tweet.tweet_time.as_str()) {
                        Option::None => {
                            return Err(PipelineError::InvalidTimestamp);
                        },
                        Option::Some(v) => {
                            ref_time = v;
                            connected = true;
                        },
                    }
                },
                Option::None => {},
            }
            let own = match parse_timestamp(p.post.tweet.tweet_time.as_str()) {
                Option::None => {
                    return Err(PipelineError::InvalidTimestamp);
                },
                Option::Some(v) => v,
            };
            let ghost old_times = times@;
            let ghost old_conns = conns@;
            times.push(GPUTweetTime { tweet_time: own, tweet_score: p.post.score });
            if connected {
                conns.push(GPUTweetConnection { tweet_time: ref_time, ref_tweet_time: own });
            }
            proof {
                assert(post_fault(s, s[i as int].post) is None);
                assert(times@ =~= old_times + seq![
                    GPUTweetTime {
                        tweet_time: parse_ts(s[i as int].post.tweet.tweet_time@)->0,
                        tweet_score: s[i as int].post.score,
                    },
                ]);
                if connected {
                    assert(conns@ =~= old_conns + seq![
                        GPUTweetConnection {
                            tweet_time: parse_ts(
                                s[find_index(s, post_target_id(s[i as int].post.tweet))].post.tweet.tweet_time@,
                            )->0,
                            ref_tweet_time: parse_ts(s[i as int].post.tweet.tweet_time@)->0,
                        },
                    ]);
                }
                assert(times_from(s, 0) =~= times@ + times_from(s, i + 1));
                assert(conns_from(s, 0) =~= conns@ + conns_from(s, i + 1));
            }
        } else {
            match parse_timestamp(p.post.tweet.tweet_time.as_str()) {
                Option::None => {
                    return Err(PipelineError::InvalidTimestamp);
                },
                Option::Some(_) => {},
            }
            proof {
                assert(post_fault(s, s[i as int].post) is None);
                assert(times_from(s, 0) =~= times@ + times_from(s, i + 1));
                assert(conns_from(s, 0) =~= conns@ + conns_from(s, i + 1));
            }
        }
        i += 1;
    }
    Ok((times, conns))
}

} // verus!
