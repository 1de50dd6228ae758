//! Stable sorting of feature rows by timestamp: post-time rows before
//! segmentation, occurrence rows before offset assignment. The sort is
//! pinned as a spec function (insertion after all equal keys), so ties keep
//! their input order.

use vstd::prelude::*;
use crate::rows::GPUHashtag;
use crate::rows::GPUHashtagV;
use crate::rows::GPUTweetTime;
use crate::shims::ts_in_range;

verus! {

/// Insert `x` after every row whose timestamp does not exceed `x`'s.
pub open spec fn insert_time(s: Seq<GPUTweetTime>, x: GPUTweetTime) -> Seq<GPUTweetTime>
    decreases s.len(),
{
    if s.len() == 0 {
        seq![x]
    } else if s.last().tweet_time <= x.tweet_time {
        s.push(x)
    } else {
        insert_time(s.drop_last(), x).push(s.last())
    }
}

/// Stable sort of post-time rows: rows in timestamp order, ties in input
/// order.
pub open spec fn stable_sort_times(s: Seq<GPUTweetTime>) -> Seq<GPUTweetTime>
    decreases s.len(),
{
    if s.len() == 0 {
        Seq::<GPUTweetTime>::empty()
    } else {
        insert_time(stable_sort_times(s.drop_last()), s.last())
    }
}

/// Non-decreasing timestamps.
pub open spec fn sorted_times(s: Seq<GPUTweetTime>) -> bool {
    forall|a: int, b: int| 0 <= a < b < s.len() ==> s[a].tweet_time <= s[b].tweet_time
}

proof fn lemma_insert_time_split(s: Seq<GPUTweetTime>, x: GPUTweetTime, p: int)
    requires
        0 <= p <= s.len(),
        forall|m: int| 0 <= m < p ==> s[m].tweet_time <= x.tweet_time,
        forall|m: int| p <= m < s.len() ==> s[m].tweet_time > x.tweet_time,
    ensures
        insert_time(s, x) =~= s.take(p) + seq![x] + s.skip(p),
    decreases s.len(),
{
    if s.len() == 0 {
    } else if s.last().tweet_time <= x.tweet_time {
        assert(p == s.len());
        assert(s.take(p) =~= s);
    } else {
        assert(p < s.len());
        let t = s.drop_last();
        lemma_insert_time_split(t, x, p);
        assert(t.take(p) =~= s.take(p));
        assert(insert_time(s, x) =~= (t.take(p) + seq![x] + t.skip(p)).push(s.last()));
    }
}

/// Stable insertion sort of the post-time rows.
#[verifier::loop_isolation(false)]
pub fn sort_times(input: Vec<GPUTweetTime>) -> (r: Vec<GPUTweetTime>)
    ensures
        r@ == stable_sort_times(input@),
        sorted_times(r@),
{
    let ghost iv = input@;
    let mut rest = input;
    let mut out: Vec<GPUTweetTime> = Vec::new();
    let ghost k: int = 0;
    proof {
        assert(iv.take(0) =~= Seq::<GPUTweetTime>::empty());
        assert(rest@ =~= iv.skip(0));
    }
    while rest.len() > 0
        invariant
            0 <= k <= iv.len(),
            rest@ =~= iv.skip(k),
            out@ == stable_sort_times(iv.take(k)),
            sorted_times(out@),
        decreases rest@.len(),
    {
        let x = rest.remove(0);
        proof {
            assert(iv.skip(k)[0] == iv[k]);
            assert(rest@ =~= iv.skip(k + 1));
        }
        let mut p: usize = out.len();
        while p > 0 && out[p - 1].tweet_time > x.tweet_time
            invariant
                0 <= p <= out@.len(),
                forall|m: int| p <= m < out@.len() ==> out@[m].tweet_time > x.tweet_time,
            decreases p,
        {
            p -= 1;
        }
        proof {
            assert forall|m: int| 0 <= m < p implies out@[m].tweet_time <= x.tweet_time by {
                assert(out@[p - 1].tweet_time <= x.tweet_time);
                assert(out@[m].tweet_time <= out@[p - 1].tweet_time);
            }
        }
        let ghost out_old = out@;
        out.insert(p, x);
        proof {
            lemma_insert_time_split(out_old, x, p as int);
            assert(out@ =~= out_old.take(p as int) + seq![x] + out_old.skip(p as int));
            assert(out@ == insert_time(out_old, x));
            assert(iv.take(k + 1).drop_last() =~= iv.take(k));
            assert(iv.take(k + 1).last() == iv[k]);
            assert(out@ == stable_sort_times(iv.take(k + 1)));
            assert forall|a: int, b: int|
                0 <= a < b < out@.len() implies out@[a].tweet_time <= out@[b].tweet_time by {
                if a < p {
                    assert(out@[a] == out_old[a]);
                }
                if a > p {
                    assert(out@[a] == out_old[a - 1]);
                }
                if b < p {
                    assert(out@[b] == out_old[b]);
                }
                if b > p {
                    assert(out@[b] == out_old[b - 1]);
                }
            }
            k = k + 1;
        }
    }
    proof {
        assert(iv.take(k) =~= iv);
    }
    out
}

proof fn lemma_insert_time_in_range(s: Seq<GPUTweetTime>, x: GPUTweetTime)
    requires
        forall|m: int| 0 <= m < s.len() ==> ts_in_range(#[trigger] s[m].tweet_time),
        ts_in_range(x.tweet_time),
    ensures
        forall|m: int|
            0 <= m < insert_time(s, x).len() ==> ts_in_range(
                #[trigger] insert_time(s, x)[m].tweet_time,
            ),
    decreases s.len(),
{
    if s.len() == 0 {
    } else if s.last().tweet_time <= x.tweet_time {
        assert forall|m: int|
            0 <= m < insert_time(s, x).len() implies ts_in_range(
            insert_time(s, x)[m].tweet_time,
        ) by {
            if m < s.len() {
                assert(insert_time(s, x)[m] == s[m]);
            }
        }
    } else {
        let t = s.drop_last();
        assert forall|m: int| 0 <= m < t.len() implies ts_in_range(t[m].tweet_time) by {
            assert(t[m] == s[m]);
        }
        lemma_insert_time_in_range(t, x);
        let r = insert_time(s, x);
        assert forall|m: int| 0 <= m < r.len() implies ts_in_range(r[m].tweet_time) by {
            if m < r.len() - 1 {
                assert(r[m] == insert_time(t, x)[m]);
            } else {
                assert(r[m] == s.last());
            }
        }
    }
}

/// A stable sort keeps every timestamp in band: the output rows are the
/// input rows rearranged.
pub proof fn lemma_sort_times_in_range(s: Seq<GPUTweetTime>)
    requires
        forall|m: int| 0 <= m < s.len() ==> ts_in_range(#[trigger] s[m].tweet_time),
    ensures
        forall|m: int|
            0 <= m < stable_sort_times(s).len() ==> ts_in_range(
                #[trigger] stable_sort_times(s)[m].tweet_time,
            ),
    decreases s.len(),
{
    if s.len() > 0 {
        assert(forall|m: int|
            0 <= m < s.drop_last().len() ==> ts_in_range(#[trigger] s.drop_last()[m].tweet_time));
        lemma_sort_times_in_range(s.drop_last());
        lemma_insert_time_in_range(stable_sort_times(s.drop_last()), s.last());
    }
}

/// Insert `x` after every occurrence whose timestamp does not exceed `x`'s.
pub open spec fn insert_occ(s: Seq<GPUHashtagV>, x: GPUHashtagV) -> Seq<GPUHashtagV>
    decreases s.len(),
{
    if s.len() == 0 {
        seq![x]
    } else if s.last().tweet_time <= x.tweet_time {
        s.push(x)
    } else {
        insert_occ(s.drop_last(), x).push(s.last())
    }
}

/// Stable sort of occurrence rows by timestamp, ties in input order.
pub open spec fn stable_sort_occs(s: Seq<GPUHashtagV>) -> Seq<GPUHashtagV>
    decreases s.len(),
{
    if s.len() == 0 {
        Seq::<GPUHashtagV>::empty()
    } else {
        insert_occ(stable_sort_occs(s.drop_last()), s.last())
    }
}

/// Non-decreasing occurrence timestamps.
pub open spec fn sorted_occs(s: Seq<GPUHashtagV>) -> bool {
    forall|a: int, b: int| 0 <= a < b < s.len() ==> s[a].tweet_time <= s[b].tweet_time
}

proof fn lemma_insert_occ_split(s: Seq<GPUHashtagV>, x: GPUHashtagV, p: int)
    requires
        0 <= p <= s.len(),
        forall|m: int| 0 <= m < p ==> s[m].tweet_time <= x.tweet_time,
        forall|m: int| p <= m < s.len() ==> s[m].tweet_time > x.tweet_time,
    ensures
        insert_occ(s, x) =~= s.take(p) + seq![x] + s.skip(p),
    decreases s.len(),
{
    if s.len() == 0 {
    } else if s.last().tweet_time <= x.tweet_time {
        assert(p == s.len());
        assert(s.take(p) =~= s);
    } else {
        assert(p < s.len());
        let t = s.drop_last();
        lemma_insert_occ_split(t, x, p);
        assert(t.take(p) =~= s.take(p));
        assert(insert_occ(s, x) =~= (t.take(p) + seq![x] + t.skip(p)).push(s.last()));
    }
}

/// Stable insertion sort of the occurrence rows.
#[verifier::loop_isolation(false)]
pub fn sort_occs(input: Vec<GPUHashtag>) -> (r: Vec<GPUHashtag>)
    ensures
        r.deep_view() == stable_sort_occs(input.deep_view()),
        sorted_occs(r.deep_view()),
{
    let ghost iv = input.deep_view();
    let mut rest = input;
    let mut out: Vec<GPUHashtag> = Vec::new();
    let ghost k: int = 0;
    proof {
        assert(iv.take(0) =~= Seq::<GPUHashtagV>::empty());
        assert(out.deep_view() =~= Seq::<GPUHashtagV>::empty());
        assert(rest.deep_view() =~= iv.skip(0));
    }
    while rest.len() > 0
        invariant
            0 <= k <= iv.len(),
            rest.deep_view() =~= iv.skip(k),
            rest@.len() == rest.deep_view().len(),
            out.deep_view() == stable_sort_occs(iv.take(k)),
            out@.len() == out.deep_view().len(),
            sorted_occs(out.deep_view()),
        decreases rest@.len(),
    {
        let ghost rest_old = rest.deep_view();
        let ghost rest_old_sq = rest@;
        let x = rest.remove(0);
        proof {
            assert(x.deep_view() == rest_old[0]);
            assert(iv.skip(k)[0] == iv[k]);
            assert forall|m: int| 0 <= m < rest@.len() implies rest.deep_view()[m] == rest_old[m
                + 1] by {
                assert(rest@[m] == rest_old_sq[m + 1]);
                assert(rest.deep_view()[m] == rest@[m].deep_view());
                assert(rest_old[m + 1] == rest_old_sq[m + 1].deep_view());
            }
            assert(rest.deep_view() =~= iv.skip(k + 1));
        }
        let ghost dv = out.deep_view();
        let mut p: usize = out.len();
        while p > 0 && out[p - 1].tweet_time > x.tweet_time
            invariant
                0 <= p <= out@.len(),
                forall|m: int| p <= m < dv.len() ==> dv[m].tweet_time > x.tweet_time,
            decreases p,
        {
            proof {
                assert(dv[p - 1] == out@[p - 1].deep_view());
            }
            p -= 1;
        }
        proof {
            if p > 0 {
                assert(dv[p - 1] == out@[p - 1].deep_view());
            }
            assert forall|m: int| 0 <= m < p implies dv[m].tweet_time <= x.tweet_time by {
                assert(dv[p - 1].tweet_time <= x.tweet_time);
                assert(dv[m].tweet_time <= dv[p - 1].tweet_time);
            }
        }
        out.insert(p, x);
        proof {
            lemma_insert_occ_split(dv, x.deep_view(), p as int);
            assert(out.deep_view() =~= dv.take(p as int) + seq![x.deep_view()] + dv.skip(
                p as int,
            ));
            assert(out.deep_view() == insert_occ(dv, x.deep_view()));
            assert(iv.take(k + 1).drop_last() =~= iv.take(k));
            assert(iv.take(k + 1).last() == iv[k]);
            assert(out.deep_view() == stable_sort_occs(iv.take(k + 1)));
            let ov = out.deep_view();
            assert forall|a: int, b: int|
                0 <= a < b < ov.len() implies ov[a].tweet_time <= ov[b].tweet_time by {
                if a < p {
                    assert(ov[a] == dv[a]);
                }
                if a > p {
                    assert(ov[a] == dv[a - 1]);
                }
                if b < p {
                    assert(ov[b] == dv[b]);
                }
                if b > p {
                    assert(ov[b] == dv[b - 1]);
                }
            }
            k = k + 1;
        }
    }
    proof {
        assert(iv.take(k) =~= iv);
    }
    out
}

} // verus!
