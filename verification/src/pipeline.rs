//! The full derivation run over a built post store: reference resolution,
//! hashtag aggregation, chronological sorting and segmentation, and the
//! two-pass compaction, yielding all six feature tables.

use vstd::prelude::*;
use crate::compact::assign_offsets;
use crate::compact::compact_dict;
use crate::compact::compact_dictionary;
use crate::compact::filter_occs;
use crate::compact::filter_occurrences;
use crate::compact::rewrite_occs;
use crate::hashtags::aggregate_hashtags;
use crate::hashtags::dict_of;
use crate::hashtags::lemma_tag_total_mono;
use crate::hashtags::lemma_tag_total_take;
use crate::hashtags::occs_of;
use crate::hashtags::post_tags;
use crate::hashtags::tag_total;
use crate::resolve::first_fault_from;
use crate::resolve::pipeline_fault;
use crate::resolve::post_fault;
use crate::resolve::conns_from;
use crate::resolve::resolve_references;
use crate::resolve::times_from;
use crate::rows::DerivedTables;
use crate::rows::GPUHashtagV;
use crate::rows::GPUTweetTime;
use crate::rows::PipelineError;
use crate::rows::StoredPost;
use crate::segment::scores_of;
use crate::segment::seg_rows;
use crate::segment::segment_times;
use crate::shims::parse_ts;
use crate::sortrows::lemma_sort_times_in_range;
use crate::sortrows::sort_occs;
use crate::sortrows::sort_times;
use crate::sortrows::stable_sort_occs;
use crate::sortrows::stable_sort_times;
use crate::store::PostStore;
use crate::decode::unwrap_string_array;

verus! {

/// A resolution pass without faults has parsed every post's own timestamp.
proof fn lemma_no_fault_times_ok(s: Seq<StoredPost>, i: int)
    requires
        0 <= i,
        first_fault_from(s, i) is None,
    ensures
        forall|m: int|
            i <= m < s.len() ==> parse_ts(#[trigger] s[m].post.tweet.tweet_time@) is Some,
    decreases s.len() - i,
{
    if i < s.len() {
        assert(post_fault(s, s[i].post) is None);
        lemma_no_fault_times_ok(s, i + 1);
    }
}

/// The sorted post-time table of a faultless run.
pub open spec fn sorted_times_of(s: Seq<StoredPost>) -> Seq<GPUTweetTime> {
    stable_sort_times(times_from(s, 0))
}

/// The compacted occurrence table of a faultless run: the occurrences that
/// strictly clear the threshold, sorted by timestamp, identifiers remapped
/// and offsets assigned.
pub open spec fn occurrences_of(s: Seq<StoredPost>, min_count: u64) -> Seq<GPUHashtagV> {
    rewrite_occs(
        stable_sort_occs(filter_occs(occs_of(s), dict_of(s), min_count)),
        compact_dict(dict_of(s), min_count),
    )
}

/// One full derivation run over a built store. On the first unparsable
/// retweet-target identifier or timestamp the run aborts with that fault;
/// otherwise all six tables come back, each pinned to its specification.
/// The tag-pair bound (checkable through `count_tag_pairs`) keeps the
/// dictionary's occurrence counters within `u64`; beyond it the counters
/// would overflow.
pub fn derive_tables(store: &PostStore, min_count: u64) -> (r: Result<
    DerivedTables,
    PipelineError,
>)
    requires
        tag_total(store.posts@) < u64::MAX,
    ensures
        r matches Ok(t) ==> pipeline_fault(store.posts@) is None && t.times@ == sorted_times_of(
            store.posts@,
        ) && t.segments@ == seg_rows(sorted_times_of(store.posts@)) && t.scores@ == scores_of(
            sorted_times_of(store.posts@),
        ) && t.connections@ == conns_from(store.posts@, 0) && t.occurrences.deep_view()
            == occurrences_of(store.posts@, min_count) && t.hashtag_ids.deep_view()
            == compact_dict(dict_of(store.posts@), min_count),
        r matches Err(e) ==> pipeline_fault(store.posts@) == Some(e),
{
    let resolved = match resolve_references(store) {
        Result::Err(e) => {
            return Err(e);
        },
        Result::Ok(x) => x,
    };
    let (times_raw, connections) = resolved;
    let agg = match aggregate_hashtags(store) {
        Result::Err(e) => {
            proof {
                lemma_no_fault_times_ok(store.posts@, 0);
                assert(false);
            }
            return Err(e);
        },
        Result::Ok(x) => x,
    };
    let (dict, occs) = agg;
    let times = sort_times(times_raw);
    proof {
        lemma_sort_times_in_range(times_from(store.posts@, 0));
    }
    let (segments, scores) = segment_times(&times);
    let hashtag_ids = compact_dictionary(&dict, min_count);
    let filtered = filter_occurrences(occs, &dict, min_count);
    let occ_sorted = sort_occs(filtered);
    let occurrences = assign_offsets(occ_sorted, &hashtag_ids);
    Ok(DerivedTables { times, segments, scores, connections, occurrences, hashtag_ids })
}

/// The total number of (post, tag) pairs the store contributes, or `None`
/// where it exceeds `u64` — the bound under which `derive_tables` keeps
/// its occurrence counters exact.
#[verifier::loop_isolation(false)]
pub fn count_tag_pairs(store: &PostStore) -> (r: Option<u64>)
    ensures
        r matches Some(t) ==> t as nat == tag_total(store.posts@),
        r is None ==> tag_total(store.posts@) > u64::MAX,
{
    let ghost s = store.posts@;
    let mut acc: u64 = 0;
    let n: usize = store.posts.len();
    let mut i: usize = 0;
    proof {
        assert(s.take(0) =~= Seq::<StoredPost>::empty());
    }
    while i < n
        invariant
            0 <= i <= n,
            acc as nat == tag_total(s.take(i as int)),
        decreases n - i,
    {
        let tags = unwrap_string_array(&store.posts[i].post.tweet.hashtags);
        let m: usize = tags.len();
        proof {
            assert(tags.deep_view() == post_tags(s[i as int]));
            assert(m as nat == post_tags(s[i as int]).len());
            lemma_tag_total_take(s, i as int);
        }
        if m as u64 > u64::MAX - acc {
            proof {
                lemma_tag_total_mono(s, i + 1);
            }
            return None;
        }
        acc = acc + (m as u64);
        i += 1;
    }
    proof {
        assert(s.take(i as int) =~= s);
    }
    Some(acc)
}

} // verus!
