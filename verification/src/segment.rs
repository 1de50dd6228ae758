//! Chronological segmentation: the sorted eligible-post timestamps are cut
//! into contiguous runs spanning less than one day from the run's first
//! timestamp. Each completed run emits its length once per run element.
//! The pass also emits the score table in the same sorted order.
//!
//! One quirk of the table format is kept deliberately: after the loop a
//! single trailing count-1 row is always appended, and the run still open
//! at the end of the input is never flushed. That trailing row is a defect
//! of the format rather than a feature — the natural repair would flush
//! the true last run's length — but downstream consumers expect the table
//! row for row, so the quirk is pinned in the contract here.

use vstd::prelude::*;
use crate::rows::GPUTweetScore;
use crate::rows::GPUTweetSegment;
use crate::rows::GPUTweetTime;
use crate::shims::ts_in_range;

verus! {

/// Seconds in one day: the segment window length.
pub const DAY_SECONDS: i64 = 86400;

/// The segment rows emitted from position `i` on, given the current run's
/// first timestamp and length. A timestamp within a day of the run's first
/// extends the run; one at or beyond the boundary emits the run's length
/// once per run element and starts a new run. The run still open when the
/// input ends is never flushed.
pub open spec fn seg_from(
    times: Seq<GPUTweetTime>,
    i: int,
    run_first: i64,
    run_len: nat,
) -> Seq<GPUTweetSegment>
    decreases times.len() - i,
{
    if i < 0 || i >= times.len() {
        Seq::<GPUTweetSegment>::empty()
    } else if run_len == 0 {
        seg_from(times, i + 1, times[i].tweet_time, 1)
    } else if times[i].tweet_time >= run_first as int + DAY_SECONDS {
        Seq::new(run_len, |m: int| GPUTweetSegment { tweet_count: run_len as u64 }) + seg_from(
            times,
            i + 1,
            times[i].tweet_time,
            1,
        )
    } else {
        seg_from(times, i + 1, run_first, run_len + 1)
    }
}

/// All segment rows of a sorted time table: the completed runs' counts,
/// then the single trailing count-1 row that is always appended.
pub open spec fn seg_rows(times: Seq<GPUTweetTime>) -> Seq<GPUTweetSegment> {
    seg_from(times, 0, 0, 0).push(GPUTweetSegment { tweet_count: 1 })
}

/// The score table: one row per post-time row, in the same order.
pub open spec fn scores_of(times: Seq<GPUTweetTime>) -> Seq<GPUTweetScore> {
    Seq::new(times.len(), |m: int| GPUTweetScore { tweet_score: times[m].tweet_score })
}

/// One pass over the sorted time table: the segment rows and the score
/// rows. The timestamp bound keeps the day-boundary arithmetic within
/// `i64`; every timestamp chrono parses lies well inside it.
#[verifier::loop_isolation(false)]
pub fn segment_times(times: &Vec<GPUTweetTime>) -> (r: (Vec<GPUTweetSegment>, Vec<GPUTweetScore>))
    requires
        forall|m: int| 0 <= m < times@.len() ==> ts_in_range(#[trigger] times@[m].tweet_time),
    ensures
        r.0@ == seg_rows(times@),
        r.1@ == scores_of(times@),
{
    let ghost tv = times@;
    let mut segs: Vec<GPUTweetSegment> = Vec::new();
    let mut scores: Vec<GPUTweetScore> = Vec::new();
    let mut run_first: i64 = 0;
    let mut run_len: usize = 0;
    let n: usize = times.len();
    let mut i: usize = 0;
    proof {
        assert(scores@ =~= Seq::new(0, |m: int| GPUTweetScore { tweet_score: tv[m].tweet_score }));
    }
    while i < n
        invariant
            0 <= i <= n,
            run_len <= i,
            run_len > 0 ==> ts_in_range(run_first),
            seg_from(tv, 0, 0, 0) =~= segs@ + seg_from(tv, i as int, run_first, run_len as nat),
            scores@ =~= Seq::new(
                i as nat,
                |m: int| GPUTweetScore { tweet_score: tv[m].tweet_score },
            ),
        decreases n - i,
    {
        let t = times[i].tweet_time;
        scores.push(GPUTweetScore { tweet_score: times[i].tweet_score });
        proof {
            assert(scores@ =~= Seq::new(
                (i + 1) as nat,
                |m: int| GPUTweetScore { tweet_score: tv[m].tweet_score },
            ));
        }
        if run_len == 0 {
            run_first = t;
            run_len = 1;
        } else if t >= run_first + DAY_SECONDS {
            let ghost segs_entry = segs@;
            let ghost row = GPUTweetSegment { tweet_count: run_len as u64 };
            let mut m: usize = 0;
            while m < run_len
                invariant
                    0 <= m <= run_len,
                    segs@ =~= segs_entry + Seq::new(m as nat, |q: int| row),
                decreases run_len - m,
            {
                segs.push(GPUTweetSegment { tweet_count: run_len as u64 });
                proof {
                    assert(segs@ =~= segs_entry + Seq::new((m + 1) as nat, |q: int| row));
                }
                m += 1;
            }
            proof {
                assert(Seq::new(run_len as nat, |q: int| row) =~= Seq::new(
                    run_len as nat,
                    |q: int| GPUTweetSegment { tweet_count: run_len as u64 },
                ));
                assert(seg_from(tv, i as int, run_first, run_len as nat) =~= Seq::new(
                    run_len as nat,
                    |q: int| GPUTweetSegment { tweet_count: run_len as u64 },
                ) + seg_from(tv, i + 1, tv[i as int].tweet_time, 1));
            }
            run_first = t;
            run_len = 1;
        } else {
            run_len += 1;
        }
        i += 1;
    }
    proof {
        assert(seg_from(tv, n as int, run_first, run_len as nat) =~= Seq::<
            GPUTweetSegment,
        >::empty());
        assert(segs@ =~= seg_from(tv, 0, 0, 0));
        assert(scores@ =~= scores_of(tv));
    }
    segs.push(GPUTweetSegment { tweet_count: 1 });
    proof {
        assert(segs@ =~= seg_rows(tv));
    }
    (segs, scores)
}

} // verus!
