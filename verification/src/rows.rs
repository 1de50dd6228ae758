//! Row types: the raw post record, the derived feature-table rows, and the
//! spec-level views that contracts are stated over.

use vstd::prelude::*;

verus! {

/// One raw post record. Every field is carried as text; decoding is the
/// pipeline's responsibility, not the reader's.
#[derive(Debug, PartialEq, Eq)]
pub struct Tweet {
    pub tweetid: String,
    pub tweet_time: String,
    pub quote_count: String,
    pub reply_count: String,
    pub like_count: String,
    pub retweet_count: String,
    pub in_reply_to_tweetid: String,
    pub quoted_tweet_tweetid: String,
    pub is_retweet: String,
    pub retweet_tweetid: String,
    pub hashtags: String,
}

/// A raw post record together with its engagement score. The score is the
/// sum of the four engagement counters; the sum itself is computed by the
/// caller (it is defined over fractional counter values), and arrives here
/// both truncated toward zero and as the flag that says whether the exact
/// sum was positive.
#[derive(Debug, PartialEq, Eq)]
pub struct ScoredPost {
    pub tweet: Tweet,
    pub score: u64,
    pub score_positive: bool,
}

/// A scored post keyed by its decoded post identifier, as held in the store.
#[derive(Debug, PartialEq, Eq)]
pub struct StoredPost {
    pub id: i64,
    pub post: ScoredPost,
}

/// Post-time table row: the post's own timestamp, carrying its truncated
/// score along so that the score table can be emitted in sorted-time order.
#[derive(Debug, Clone, Copy, PartialEq, Eq, Structural)]
pub struct GPUTweetTime {
    pub tweet_time: i64,
    pub tweet_score: u64,
}

/// Segment table row: the length of one completed day-length run.
#[derive(Debug, Clone, Copy, PartialEq, Eq, Structural)]
pub struct GPUTweetSegment {
    pub tweet_count: u64,
}

/// Score table row: one truncated engagement score.
#[derive(Debug, Clone, Copy, PartialEq, Eq, Structural)]
pub struct GPUTweetScore {
    pub tweet_score: u64,
}

/// Connection table row: the referenced post's timestamp paired with the
/// referencing post's own timestamp.
#[derive(Debug, Clone, Copy, PartialEq, Eq, Structural)]
pub struct GPUTweetConnection {
    pub tweet_time: i64,
    pub ref_tweet_time: i64,
}

/// Hashtag occurrence row: one entry per (post, tag) pair, with the tag's
/// dictionary identifier and an intra-timestamp collision offset.
#[derive(Debug, PartialEq, Eq)]
pub struct GPUHashtag {
    pub tweet_time: i64,
    pub hash_id: u64,
    pub offset: u64,
    pub text: String,
}

/// Spec view of a hashtag occurrence row.
#[verifier::ext_equal]
pub ghost struct GPUHashtagV {
    pub tweet_time: i64,
    pub hash_id: u64,
    pub offset: u64,
    pub text: Seq<char>,
}

impl View for GPUHashtag {
    type V = GPUHashtagV;

    open spec fn view(&self) -> GPUHashtagV {
        GPUHashtagV {
            tweet_time: self.tweet_time,
            hash_id: self.hash_id,
            offset: self.offset,
            text: self.text@,
        }
    }
}

impl DeepView for GPUHashtag {
    type V = GPUHashtagV;

    open spec fn deep_view(&self) -> GPUHashtagV {
        self.view()
    }
}

/// Compacted dictionary row: the surviving tag's original identifier, its
/// dense 0-based replacement, the tag text, and its occurrence count.
#[derive(Debug, PartialEq, Eq)]
pub struct GPUHashtagId {
    pub hash_id: u64,
    pub new_id: u64,
    pub text: String,
    pub count: u64,
}

/// Spec view of a compacted dictionary row.
#[verifier::ext_equal]
pub ghost struct GPUHashtagIdV {
    pub hash_id: u64,
    pub new_id: u64,
    pub text: Seq<char>,
    pub count: u64,
}

impl View for GPUHashtagId {
    type V = GPUHashtagIdV;

    open spec fn view(&self) -> GPUHashtagIdV {
        GPUHashtagIdV {
            hash_id: self.hash_id,
            new_id: self.new_id,
            text: self.text@,
            count: self.count,
        }
    }
}

impl DeepView for GPUHashtagId {
    type V = GPUHashtagIdV;

    open spec fn deep_view(&self) -> GPUHashtagIdV {
        self.view()
    }
}

/// Hashtag dictionary entry: the tag text, its stable first-seen identifier,
/// and the number of (post, tag) pairs seen for that text.
#[derive(Debug, PartialEq, Eq)]
pub struct DictEntry {
    pub text: String,
    pub id: u64,
    pub count: u64,
}

/// Spec view of a dictionary entry.
#[verifier::ext_equal]
pub ghost struct DictEntryV {
    pub text: Seq<char>,
    pub id: u64,
    pub count: u64,
}

impl View for DictEntry {
    type V = DictEntryV;

    open spec fn view(&self) -> DictEntryV {
        DictEntryV { text: self.text@, id: self.id, count: self.count }
    }
}

impl DeepView for DictEntry {
    type V = DictEntryV;

    open spec fn deep_view(&self) -> DictEntryV {
        self.view()
    }
}

/// All six derived feature tables of one run, in their emission order.
#[derive(Debug)]
pub struct DerivedTables {
    pub times: Vec<GPUTweetTime>,
    pub segments: Vec<GPUTweetSegment>,
    pub scores: Vec<GPUTweetScore>,
    pub connections: Vec<GPUTweetConnection>,
    pub occurrences: Vec<GPUHashtag>,
    pub hashtag_ids: Vec<GPUHashtagId>,
}

/// The fatal errors of a run. Field decoding never fails; only identifier
/// and timestamp parses abort the run.
#[derive(Debug, Clone, Copy, PartialEq, Eq, Structural)]
pub enum PipelineError {
    /// A post's own identifier did not parse as an integer.
    InvalidPostId,
    /// A retweet-flagged post's retweet-target identifier did not parse.
    InvalidReferenceId,
    /// A post timestamp did not match the fixed `YYYY-MM-DD HH:MM` pattern.
    InvalidTimestamp,
}

} // verus!
