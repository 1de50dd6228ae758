//! Compaction: the dictionary filter with dense identifier remapping, and
//! the occurrence rewrite. The two passes deliberately use different
//! comparators — the dictionary keeps entries with a count at or above the
//! threshold, while occurrences survive only where the count strictly
//! exceeds it — and that asymmetry is load-bearing for output parity.

use vstd::prelude::*;
use crate::hashtags::dict_find;
use crate::hashtags::dict_find_exec;
use crate::hashtags::HashtagDictionary;
use crate::rows::DictEntryV;
use crate::rows::GPUHashtag;
use crate::rows::GPUHashtagId;
use crate::rows::GPUHashtagIdV;
use crate::rows::GPUHashtagV;

verus! {

/// Pass 1: entries whose count is at least `min_count` survive, keep their
/// original identifier, text and count, and get dense new identifiers
/// 0, 1, 2, … in dictionary order.
pub open spec fn compact_dict(d: Seq<DictEntryV>, min_count: u64) -> Seq<GPUHashtagIdV>
    decreases d.len(),
{
    if d.len() == 0 {
        Seq::<GPUHashtagIdV>::empty()
    } else {
        let pre = compact_dict(d.drop_last(), min_count);
        if d.last().count >= min_count {
            pre.push(
                GPUHashtagIdV {
                    hash_id: d.last().id,
                    new_id: pre.len() as u64,
                    text: d.last().text,
                    count: d.last().count,
                },
            )
        } else {
            pre
        }
    }
}

/// New identifiers are exactly the output positions, so the compacted
/// dictionary is already sorted by `new_id` ascending.
pub proof fn lemma_compact_new_ids(d: Seq<DictEntryV>, min_count: u64)
    ensures
        compact_dict(d, min_count).len() <= d.len(),
        forall|k: int|
            0 <= k < compact_dict(d, min_count).len() ==> #[trigger] compact_dict(
                d,
                min_count,
            )[k].new_id == k as u64,
    decreases d.len(),
{
    if d.len() > 0 {
        lemma_compact_new_ids(d.drop_last(), min_count);
    }
}

/// Every entry at or above the threshold appears in the compacted
/// dictionary with its identifier, text and count.
pub proof fn lemma_compact_contains(d: Seq<DictEntryV>, min_count: u64, k: int)
    requires
        0 <= k < d.len(),
        d[k].count >= min_count,
    ensures
        exists|j: int|
            0 <= j < compact_dict(d, min_count).len() && (#[trigger] compact_dict(d, min_count)[j]).hash_id
                == d[k].id && compact_dict(d, min_count)[j].text == d[k].text && compact_dict(
                d,
                min_count,
            )[j].count == d[k].count,
    decreases d.len(),
{
    let out = compact_dict(d, min_count);
    let pre = compact_dict(d.drop_last(), min_count);
    if k == d.len() - 1 {
        assert(out[pre.len() as int].hash_id == d[k].id);
        assert(out[pre.len() as int].text == d[k].text);
        assert(out[pre.len() as int].count == d[k].count);
    } else {
        lemma_compact_contains(d.drop_last(), min_count, k);
        let j = choose|j: int|
            0 <= j < pre.len() && (#[trigger] pre[j]).hash_id == d.drop_last()[k].id
                && pre[j].text == d.drop_last()[k].text && pre[j].count == d.drop_last()[k].count;
        assert(out[j] == pre[j]);
    }
}

/// The occurrence count the rewrite sees for a text: the first matching
/// dictionary entry's count, or zero where the text is absent.
pub open spec fn dict_count(d: Seq<DictEntryV>, text: Seq<char>) -> u64 {
    let k = dict_find(d, text);
    if k >= 0 {
        d[k].count
    } else {
        0
    }
}

/// Pass 2 filter: occurrences survive only where their text's count
/// strictly exceeds `min_count`.
pub open spec fn filter_occs(
    o: Seq<GPUHashtagV>,
    d: Seq<DictEntryV>,
    min_count: u64,
) -> Seq<GPUHashtagV>
    decreases o.len(),
{
    if o.len() == 0 {
        Seq::<GPUHashtagV>::empty()
    } else {
        let pre = filter_occs(o.drop_last(), d, min_count);
        if dict_count(d, o.last().text) > min_count {
            pre.push(o.last())
        } else {
            pre
        }
    }
}

/// Every surviving occurrence's text strictly exceeds the threshold.
pub proof fn lemma_filter_occs_member(o: Seq<GPUHashtagV>, d: Seq<DictEntryV>, min_count: u64)
    ensures
        forall|j: int|
            0 <= j < filter_occs(o, d, min_count).len() ==> dict_count(
                d,
                #[trigger] filter_occs(o, d, min_count)[j].text,
            ) > min_count,
    decreases o.len(),
{
    if o.len() > 0 {
        lemma_filter_occs_member(o.drop_last(), d, min_count);
        let pre = filter_occs(o.drop_last(), d, min_count);
        let out = filter_occs(o, d, min_count);
        assert forall|j: int|
            0 <= j < out.len() implies dict_count(d, #[trigger] out[j].text) > min_count by {
            if j < pre.len() {
                assert(out[j] == pre[j]);
            }
        }
    }
}

/// Compaction asymmetry: an entry whose count equals the threshold
/// survives the dictionary filter, yet no occurrence of its text survives
/// the occurrence filter.
pub proof fn lemma_compaction_asymmetry(
    d: Seq<DictEntryV>,
    o: Seq<GPUHashtagV>,
    min_count: u64,
    k: int,
)
    requires
        0 <= k < d.len(),
        d[k].count == min_count,
        dict_find(d, d[k].text) == k,
    ensures
        exists|j: int|
            0 <= j < compact_dict(d, min_count).len() && (#[trigger] compact_dict(d, min_count)[j]).hash_id
                == d[k].id && compact_dict(d, min_count)[j].text == d[k].text && compact_dict(
                d,
                min_count,
            )[j].count == d[k].count,
        forall|j: int|
            0 <= j < filter_occs(o, d, min_count).len() ==> (#[trigger] filter_occs(
                o,
                d,
                min_count,
            )[j]).text != d[k].text,
{
    lemma_compact_contains(d, min_count, k);
    lemma_filter_occs_member(o, d, min_count);
    assert(dict_count(d, d[k].text) == min_count);
}

/// The dense identifier an original identifier is rewritten to: the first
/// matching compacted entry's `new_id`, or zero where none matches.
pub open spec fn remap_id(ids: Seq<GPUHashtagIdV>, h: u64) -> u64
    decreases ids.len(),
{
    if ids.len() == 0 {
        0
    } else if ids[0].hash_id == h {
        ids[0].new_id
    } else {
        remap_id(ids.drop_first(), h)
    }
}

proof fn lemma_remap_prefix(ids: Seq<GPUHashtagIdV>, h: u64, i: int)
    requires
        0 <= i <= ids.len(),
        forall|m: int| 0 <= m < i ==> #[trigger] ids[m].hash_id != h,
    ensures
        remap_id(ids, h) == remap_id(ids.skip(i), h),
    decreases i,
{
    if i == 0 {
        assert(ids.skip(0) =~= ids);
    } else {
        let t = ids.drop_first();
        assert(forall|m: int| 0 <= m < i - 1 ==> #[trigger] t[m].hash_id != h);
        lemma_remap_prefix(t, h, i - 1);
        assert(t.skip(i - 1) =~= ids.skip(i));
    }
}

/// The offset of the occurrence at position `i` of a sorted list: one more
/// than its predecessor's where the timestamps agree, else zero.
pub open spec fn offset_at(s: Seq<GPUHashtagV>, i: int) -> nat
    decreases i,
{
    if i <= 0 || i >= s.len() {
        0
    } else if s[i].tweet_time == s[i - 1].tweet_time {
        offset_at(s, i - 1) + 1
    } else {
        0
    }
}

/// Offsets never exceed the position.
pub proof fn lemma_offset_bound(s: Seq<GPUHashtagV>, i: int)
    ensures
        offset_at(s, i) <= if i >= 0 {
            i
        } else {
            0
        },
    decreases i,
{
    if 0 < i < s.len() && s[i].tweet_time == s[i - 1].tweet_time {
        lemma_offset_bound(s, i - 1);
    }
}

/// Offset assignment: an occurrence opening a new timestamp gets offset 0;
/// one sharing its predecessor's timestamp gets the predecessor's offset
/// plus one — so equal-timestamp neighbours receive 0, 1, 2, … and any
/// timestamp change resets the offset.
pub proof fn lemma_offset_rule(s: Seq<GPUHashtagV>, i: int)
    requires
        0 <= i < s.len(),
    ensures
        (i == 0 || s[i].tweet_time != s[i - 1].tweet_time) ==> offset_at(s, i) == 0,
        (i > 0 && s[i].tweet_time == s[i - 1].tweet_time) ==> offset_at(s, i) == offset_at(
            s,
            i - 1,
        ) + 1,
{
}

/// The rewritten occurrence list: identifiers remapped, offsets assigned,
/// timestamps and texts kept.
pub open spec fn rewrite_occs(
    sorted: Seq<GPUHashtagV>,
    ids: Seq<GPUHashtagIdV>,
) -> Seq<GPUHashtagV> {
    Seq::new(
        sorted.len(),
        |i: int|
            GPUHashtagV {
                tweet_time: sorted[i].tweet_time,
                hash_id: remap_id(ids, sorted[i].hash_id),
                offset: offset_at(sorted, i) as u64,
                text: sorted[i].text,
            },
    )
}

/// Pass 1 of compaction: filter the dictionary by `>= min_count` and
/// assign dense new identifiers in dictionary order. The result is sorted
/// by `new_id` ascending — the identifiers are exactly the positions.
#[verifier::loop_isolation(false)]
pub fn compact_dictionary(dict: &HashtagDictionary, min_count: u64) -> (r: Vec<GPUHashtagId>)
    ensures
        r.deep_view() == compact_dict(dict@, min_count),
        forall|k: int|
            0 <= k < r.deep_view().len() ==> #[trigger] r.deep_view()[k].new_id == k as u64,
{
    let ghost d = dict@;
    let mut out: Vec<GPUHashtagId> = Vec::new();
    let n: usize = dict.entries.len();
    let mut i: usize = 0;
    proof {
        assert(d.take(0) =~= Seq::<DictEntryV>::empty());
        assert(out.deep_view() =~= compact_dict(d.take(0), min_count));
    }
    while i < n
        invariant
            0 <= i <= n,
            n == d.len(),
            out.deep_view() == compact_dict(d.take(i as int), min_count),
            out@.len() == out.deep_view().len(),
        decreases n - i,
    {
        proof {
            assert(d[i as int] == dict.entries@[i as int].deep_view());
            assert(d.take(i + 1).drop_last() =~= d.take(i as int));
            assert(d.take(i + 1).last() == d[i as int]);
        }
        let e = &dict.entries[i];
        if e.count >= min_count {
            let ghost o_old = out.deep_view();
            out.push(
                GPUHashtagId {
                    hash_id: e.id,
                    new_id: out.len() as u64,
                    text: e.text.clone(),
                    count: e.count,
                },
            );
            proof {
                assert(out.deep_view() =~= o_old.push(
                    GPUHashtagIdV {
                        hash_id: d[i as int].id,
                        new_id: o_old.len() as u64,
                        text: d[i as int].text,
                        count: d[i as int].count,
                    },
                ));
            }
        }
        i += 1;
    }
    proof {
        assert(d.take(n as int) =~= d);
        lemma_compact_new_ids(d, min_count);
    }
    out
}

/// The pass-2 occurrence filter: keep occurrences whose text's count
/// strictly exceeds `min_count`; an absent text counts as zero.
#[verifier::loop_isolation(false)]
pub fn filter_occurrences(occs: Vec<GPUHashtag>, dict: &HashtagDictionary, min_count: u64) -> (r:
    Vec<GPUHashtag>)
    ensures
        r.deep_view() == filter_occs(occs.deep_view(), dict@, min_count),
{
    let ghost iv = occs.deep_view();
    let ghost d = dict@;
    let mut rest = occs;
    let mut out: Vec<GPUHashtag> = Vec::new();
    let ghost k: int = 0;
    proof {
        assert(iv.take(0) =~= Seq::<GPUHashtagV>::empty());
        assert(out.deep_view() =~= filter_occs(iv.take(0), d, min_count));
        assert(rest.deep_view() =~= iv.skip(0));
    }
    while rest.len() > 0
        invariant
            0 <= k <= iv.len(),
            rest.deep_view() =~= iv.skip(k),
            rest@.len() == rest.deep_view().len(),
            out.deep_view() == filter_occs(iv.take(k), d, min_count),
            out@.len() == out.deep_view().len(),
        decreases rest@.len(),
    {
        let ghost rest_old = rest.deep_view();
        let ghost rest_old_sq = rest@;
        let occ = rest.remove(0);
        proof {
            assert(occ.deep_view() == rest_old[0]);
            assert(iv.skip(k)[0] == iv[k]);
            assert forall|m: int| 0 <= m < rest@.len() implies rest.deep_view()[m] == rest_old[m
                + 1] by {
                assert(rest@[m] == rest_old_sq[m + 1]);
                assert(rest.deep_view()[m] == rest@[m].deep_view());
                assert(rest_old[m + 1] == rest_old_sq[m + 1].deep_view());
            }
            assert(rest.deep_view() =~= iv.skip(k + 1));
            assert(iv.take(k + 1).drop_last() =~= iv.take(k));
            assert(iv.take(k + 1).last() == iv[k]);
        }
        let count = match dict_find_exec(&dict.entries, &occ.text) {
            Option::Some(f) => {
                proof {
                    assert(d[f as int] == dict.entries@[f as int].deep_view());
                }
                dict.entries[f].count
            },
            Option::None => 0,
        };
        proof {
            assert(count == dict_count(d, iv[k].text));
        }
        if count > min_count {
            let ghost o_old = out.deep_view();
            out.push(occ);
            proof {
                assert(out.deep_view() =~= o_old.push(iv[k]));
            }
        }
        proof {
            k = k + 1;
        }
    }
    proof {
        assert(iv.take(k) =~= iv);
    }
    out
}

/// The dense-identifier lookup the rewrite uses: the first compacted entry
/// holding the original identifier decides, and an absent identifier maps
/// to zero.
pub fn remap_exec(ids: &Vec<GPUHashtagId>, h: u64) -> (r: u64)
    ensures
        r == remap_id(ids.deep_view(), h),
{
    let ghost dv = ids.deep_view();
    let mut i: usize = 0;
    while i < ids.len()
        invariant
            0 <= i <= ids@.len(),
            dv == ids.deep_view(),
            dv.len() == ids@.len(),
            forall|m: int| 0 <= m < i ==> #[trigger] dv[m].hash_id != h,
        decreases ids@.len() - i,
    {
        proof {
            assert(dv[i as int] == ids@[i as int].deep_view());
        }
        if ids[i].hash_id == h {
            proof {
                lemma_remap_prefix(dv, h, i as int);
                assert(dv.skip(i as int)[0] == dv[i as int]);
            }
            return ids[i].new_id;
        }
        i += 1;
    }
    proof {
        lemma_remap_prefix(dv, h, i as int);
        assert(dv.skip(i as int) =~= Seq::<GPUHashtagIdV>::empty());
    }
    0
}

/// The rewrite walk over the sorted, filtered occurrences: each row's
/// identifier is remapped and its offset assigned — zero by default,
/// ascending across a run of equal timestamps, reset on any change.
#[verifier::loop_isolation(false)]
pub fn assign_offsets(sorted: Vec<GPUHashtag>, ids: &Vec<GPUHashtagId>) -> (r: Vec<GPUHashtag>)
    ensures
        r.deep_view() == rewrite_occs(sorted.deep_view(), ids.deep_view()),
{
    let ghost sv = sorted.deep_view();
    let ghost idv = ids.deep_view();
    let mut rest = sorted;
    let mut out: Vec<GPUHashtag> = Vec::new();
    let mut offset: u64 = 0;
    let ghost k: int = 0;
    proof {
        assert(rest.deep_view() =~= sv.skip(0));
    }
    while rest.len() > 0
        invariant
            0 <= k <= sv.len(),
            rest.deep_view() =~= sv.skip(k),
            rest@.len() == rest.deep_view().len(),
            out@.len() == out.deep_view().len(),
            out@.len() == k,
            offset as nat == offset_at(sv, k),
            forall|m: int| 0 <= m < k ==> #[trigger] out.deep_view()[m] == rewrite_occs(sv, idv)[m],
        decreases rest@.len(),
    {
        let ghost rest_old = rest.deep_view();
        let ghost rest_old_sq = rest@;
        let occ = rest.remove(0);
        proof {
            assert(occ.deep_view() == rest_old[0]);
            assert(sv.skip(k)[0] == sv[k]);
            assert forall|m: int| 0 <= m < rest@.len() implies rest.deep_view()[m] == rest_old[m
                + 1] by {
                assert(rest@[m] == rest_old_sq[m + 1]);
                assert(rest.deep_view()[m] == rest@[m].deep_view());
                assert(rest_old[m + 1] == rest_old_sq[m + 1].deep_view());
            }
            assert(rest.deep_view() =~= sv.skip(k + 1));
        }
        let new_id = remap_exec(ids, occ.hash_id);
        let ghost o_old = out.deep_view();
        out.push(
            GPUHashtag {
                tweet_time: occ.tweet_time,
                hash_id: new_id,
                offset,
                text: occ.text,
            },
        );
        proof {
            assert(out.deep_view() =~= o_old.push(
                GPUHashtagV {
                    tweet_time: sv[k].tweet_time,
                    hash_id: remap_id(idv, sv[k].hash_id),
                    offset: offset_at(sv, k) as u64,
                    text: sv[k].text,
                },
            ));
            assert(out.deep_view()[k] == rewrite_occs(sv, idv)[k]);
        }
        if rest.len() > 0 {
            proof {
                assert(rest.deep_view()[0] == sv[k + 1]);
                lemma_offset_bound(sv, k);
            }
            let same = rest[0].tweet_time == occ.tweet_time;
            if same {
                proof {
                    assert(offset as nat <= k);
                    assert(out.len() == out@.len());
                    assert(out@.len() == k + 1);
                }
                offset = offset + 1;
            } else {
                offset = 0;
            }
            proof {
                assert(rest@[0].deep_view() == sv[k + 1]);
                assert(offset as nat == offset_at(sv, k + 1));
            }
        } else {
            offset = 0;
            proof {
                assert(offset_at(sv, k + 1) == 0);
            }
        }
        proof {
            k = k + 1;
        }
    }
    proof {
        assert(out.deep_view() =~= rewrite_occs(sv, idv));
    }
    out
}

} // verus!
