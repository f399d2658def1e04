use vstd::prelude::*;
use crate::interval::{TimeInterval, min_u64, max_u64, sub_floor, removed_len, contracted};

verus! {

/// Where the kept span before silence `(s, e)` ends: `margin` into the
/// silence, never past the end of the video.
pub open spec fn keep_end(s: u64, margin: u64, duration: u64) -> u64 {
    if s + margin < duration {
        (s + margin) as u64
    } else {
        duration
    }
}

/// Where keeping resumes after silence `iv`: `margin` before its end, and
/// never before the kept span that precedes it.
pub open spec fn next_cursor(iv: TimeInterval, margin: u64, duration: u64) -> u64 {
    max_u64(sub_floor(iv.end, margin), keep_end(iv.start, margin, duration))
}

/// The cursor and the keep ranges emitted after walking `sil` in order.
pub open spec fn reduce_prefix(sil: Seq<TimeInterval>, duration: u64, margin: u64) -> (u64, Seq<TimeInterval>)
    decreases sil.len(),
{
    if sil.len() == 0 {
        (0, Seq::empty())
    } else {
        let (c, rs) = reduce_prefix(sil.drop_last(), duration, margin);
        let iv = sil.last();
        let ke = keep_end(iv.start, margin, duration);
        let rs2 = if ke > c {
            rs.push(TimeInterval { start: c, end: ke })
        } else {
            rs
        };
        (next_cursor(iv, margin, duration), rs2)
    }
}

/// The keep ranges for silences `sil` in a video of `duration` with cut
/// margin `margin`.
pub open spec fn keep_ranges(sil: Seq<TimeInterval>, duration: u64, margin: u64) -> Seq<TimeInterval> {
    let (c, rs) = reduce_prefix(sil, duration, margin);
    if c < duration {
        rs.push(TimeInterval { start: c, end: duration })
    } else {
        rs
    }
}

/// Sum of the lengths of `rs`.
pub open spec fn total_len(rs: Seq<TimeInterval>) -> int
    decreases rs.len(),
{
    if rs.len() == 0 {
        0
    } else {
        total_len(rs.drop_last()) + rs.last().len()
    }
}

/// Sum of what each silence of `sil` removes under `margin`.
pub open spec fn total_removed(sil: Seq<TimeInterval>, margin: u64) -> int
    decreases sil.len(),
{
    if sil.len() == 0 {
        0
    } else {
        total_removed(sil.drop_last(), margin) + removed_len(sil.last(), margin)
    }
}

/// A valid keep-range list: each range of positive length inside
/// `[0, duration]`, and ranges in increasing order without overlap.
pub open spec fn keep_list_wf(rs: Seq<TimeInterval>, duration: u64) -> bool {
    &&& forall|i: int| 0 <= i < rs.len() ==> #[trigger] rs[i].start < rs[i].end && rs[i].end <= duration
    &&& forall|i: int, j: int| 0 <= i < j < rs.len() ==> #[trigger] rs[i].end <= #[trigger] rs[j].start
}

/// A valid silence list: each interval well formed, in increasing order and
/// without overlap (touching is allowed).
pub open spec fn silences_sorted(sil: Seq<TimeInterval>) -> bool {
    &&& forall|i: int| 0 <= i < sil.len() ==> #[trigger] sil[i].start <= sil[i].end
    &&& forall|i: int| 0 < i < sil.len() ==> #[trigger] sil[i - 1].end <= sil[i].start
}

/// Every silence of `sil` ends within the video.
pub open spec fn silences_within(sil: Seq<TimeInterval>, duration: u64) -> bool {
    forall|i: int| 0 <= i < sil.len() ==> #[trigger] sil[i].end <= duration
}

/// Over ordered silences the cursor never moves back.
proof fn lemma_cursor_grows(sil: Seq<TimeInterval>, duration: u64, margin: u64)
    requires
        silences_sorted(sil),
        sil.len() > 0,
    ensures
        reduce_prefix(sil.drop_last(), duration, margin).0 <= reduce_prefix(sil, duration, margin).0,
        reduce_prefix(sil.drop_last(), duration, margin).0 <= max_u64(
            sub_floor(sil.last().end, margin),
            keep_end(sil.last().start, margin, duration),
        ),
{
    let n = sil.len() as int;
    if n > 1 {
        let p = sil.drop_last();
        assert(p.last() == sil[n - 2]);
        assert(sil[n - 2].end <= sil[n - 1].start);
        assert(sil[n - 2].start <= sil[n - 2].end);
        assert(sil[n - 1].start <= sil[n - 1].end);
    }
}

proof fn lemma_prefix_wf(sil: Seq<TimeInterval>, duration: u64, margin: u64)
    requires
        silences_sorted(sil),
    ensures
        keep_list_wf(reduce_prefix(sil, duration, margin).1, duration),
        forall|i: int|
            0 <= i < reduce_prefix(sil, duration, margin).1.len() ==> #[trigger] reduce_prefix(
                sil,
                duration,
                margin,
            ).1[i].end <= reduce_prefix(sil, duration, margin).0,
    decreases sil.len(),
{
    if sil.len() > 0 {
        let p = sil.drop_last();
        lemma_sorted_prefix(sil);
        lemma_prefix_wf(p, duration, margin);
        lemma_cursor_grows(sil, duration, margin);
    }
}

proof fn lemma_keep_ranges_wf(sil: Seq<TimeInterval>, duration: u64, margin: u64)
    requires
        silences_sorted(sil),
    ensures
        keep_list_wf(keep_ranges(sil, duration, margin), duration),
{
    lemma_prefix_wf(sil, duration, margin);
}


proof fn lemma_total_len_push(rs: Seq<TimeInterval>, x: TimeInterval)
    ensures
        total_len(rs.push(x)) == total_len(rs) + x.len(),
{
    assert(rs.push(x).drop_last() =~= rs);
}

/// Kept length so far, and the cursor clipped to the video's end.
spec fn kept_so_far(sil: Seq<TimeInterval>, duration: u64, margin: u64) -> int {
    total_len(reduce_prefix(sil, duration, margin).1)
}

spec fn clipped_cursor(sil: Seq<TimeInterval>, duration: u64, margin: u64) -> int {
    min_u64(reduce_prefix(sil, duration, margin).0, duration) as int
}

proof fn lemma_prefix_step(sil: Seq<TimeInterval>, duration: u64, margin: u64)
    requires
        sil.len() > 0,
    ensures
        ({
            let p = sil.drop_last();
            let ke = keep_end(sil.last().start, margin, duration) as int;
            let a = clipped_cursor(p, duration, margin);
            &&& kept_so_far(sil, duration, margin) == kept_so_far(p, duration, margin) + if ke > a {
                ke - a
            } else {
                0
            }
            &&& clipped_cursor(sil, duration, margin) == min_u64(
                next_cursor(sil.last(), margin, duration),
                duration,
            )
        }),
{
    let p = sil.drop_last();
    let (c, rs) = reduce_prefix(p, duration, margin);
    let ke = keep_end(sil.last().start, margin, duration);
    if ke > c {
        lemma_total_len_push(rs, TimeInterval { start: c, end: ke });
    }
}

proof fn lemma_total_kept(sil: Seq<TimeInterval>, duration: u64, margin: u64)
    ensures
        total_len(keep_ranges(sil, duration, margin)) == kept_so_far(sil, duration, margin)
            + duration - clipped_cursor(sil, duration, margin),
{
    let (c, rs) = reduce_prefix(sil, duration, margin);
    if c < duration {
        lemma_total_len_push(rs, TimeInterval { start: c, end: duration });
    }
}

/// A prefix of a valid silence list is a valid silence list.
pub proof fn lemma_sorted_take(sil: Seq<TimeInterval>, n: int)
    requires
        silences_sorted(sil),
        0 <= n <= sil.len(),
    ensures
        silences_sorted(sil.take(n)),
{
    let p = sil.take(n);
    assert forall|i: int| 0 < i < p.len() implies #[trigger] p[i - 1].end <= p[i].start by {
        assert(p[i - 1] == sil[i - 1]);
        assert(p[i] == sil[i]);
    }
    assert forall|i: int| 0 <= i < p.len() implies #[trigger] p[i].start <= p[i].end by {
        assert(p[i] == sil[i]);
    }
}

proof fn lemma_sorted_prefix(sil: Seq<TimeInterval>)
    requires
        silences_sorted(sil),
        sil.len() > 0,
    ensures
        silences_sorted(sil.drop_last()),
{
    lemma_sorted_take(sil, sil.len() - 1);
    assert(sil.take(sil.len() - 1) =~= sil.drop_last());
}

/// Under the larger margin the kept length so far leads by at least as much
/// as its cursor.
proof fn lemma_margin_lead(sil: Seq<TimeInterval>, duration: u64, m1: u64, m2: u64)
    requires
        silences_sorted(sil),
        m1 <= m2,
    ensures
        kept_so_far(sil, duration, m2) >= kept_so_far(sil, duration, m1) + if clipped_cursor(
            sil,
            duration,
            m2,
        ) > clipped_cursor(sil, duration, m1) {
            clipped_cursor(sil, duration, m2) - clipped_cursor(sil, duration, m1)
        } else {
            0
        },
    decreases sil.len(),
{
    if sil.len() > 0 {
        let p = sil.drop_last();
        lemma_sorted_prefix(sil);
        lemma_margin_lead(p, duration, m1, m2);
        lemma_prefix_step(sil, duration, m1);
        lemma_prefix_step(sil, duration, m2);
        lemma_cursor_grows(sil, duration, m1);
        lemma_cursor_grows(sil, duration, m2);
    }
}

/// Monotonicity in the margin: over an ordered silence list, a larger cut
/// margin never keeps less of the video, and a smaller one never keeps more.
pub proof fn lemma_kept_monotone_in_margin(
    silences: Seq<TimeInterval>,
    duration: u64,
    m1: u64,
    m2: u64,
)
    requires
        silences_sorted(silences),
        m1 <= m2,
    ensures
        total_len(keep_ranges(silences, duration, m1)) <= total_len(
            keep_ranges(silences, duration, m2),
        ),
{
    lemma_margin_lead(silences, duration, m1, m2);
    lemma_total_kept(silences, duration, m1);
    lemma_total_kept(silences, duration, m2);
}

proof fn lemma_coverage_prefix(sil: Seq<TimeInterval>, duration: u64, margin: u64)
    requires
        silences_sorted(sil),
        silences_within(sil, duration),
    ensures
        kept_so_far(sil, duration, margin) + total_removed(sil, margin) == clipped_cursor(
            sil,
            duration,
            margin,
        ),
    decreases sil.len(),
{
    if sil.len() > 0 {
        let p = sil.drop_last();
        lemma_sorted_prefix(sil);
        assert(silences_within(p, duration)) by {
            assert forall|i: int| 0 <= i < p.len() implies #[trigger] p[i].end <= duration by {
                assert(p[i] == sil[i]);
            }
        }
        lemma_coverage_prefix(p, duration, margin);
        lemma_prefix_step(sil, duration, margin);
        lemma_cursor_grows(sil, duration, margin);
        let n = sil.len() as int;
        assert(sil.last() == sil[n - 1]);
        assert(sil[n - 1].end <= duration);
        assert(sil[n - 1].start <= sil[n - 1].end);
        if n > 1 {
            assert(p.last() == sil[n - 2]);
            assert(sil[n - 2].end <= sil[n - 1].start);
            assert(sil[n - 2].start <= sil[n - 2].end);
        }
        let iv = sil.last();
        match contracted(iv, margin) {
            Some(c) => {},
            None => {},
        }
    }
}

/// Coverage: over an ordered silence list inside the video, the kept
/// length plus what each silence removes (its span less the margin kept at
/// both edges, or nothing where the margins meet) is the whole duration.
pub proof fn lemma_coverage(silences: Seq<TimeInterval>, duration: u64, margin: u64)
    requires
        silences_sorted(silences),
        silences_within(silences, duration),
    ensures
        total_len(keep_ranges(silences, duration, margin)) + total_removed(silences, margin)
            == duration,
{
    lemma_coverage_prefix(silences, duration, margin);
    lemma_total_kept(silences, duration, margin);
}

/// The keep ranges depend on the silences, the duration and the margin
/// alone: two runs on the same inputs give the same list.
pub proof fn lemma_reducer_deterministic(
    silences: Seq<TimeInterval>,
    duration: u64,
    margin: u64,
    r1: Seq<TimeInterval>,
    r2: Seq<TimeInterval>,
)
    requires
        r1 == keep_ranges(silences, duration, margin),
        r2 == keep_ranges(silences, duration, margin),
    ensures
        r1 == r2,
{
}

/// Sum of the silence lengths of `sil`.
pub open spec fn total_silence(sil: Seq<TimeInterval>) -> int
    decreases sil.len(),
{
    if sil.len() == 0 {
        0
    } else {
        total_silence(sil.drop_last()) + sil.last().len()
    }
}

proof fn lemma_removed_no_margin(sil: Seq<TimeInterval>)
    requires
        silences_sorted(sil),
    ensures
        total_removed(sil, 0) == total_silence(sil),
    decreases sil.len(),
{
    if sil.len() > 0 {
        lemma_sorted_prefix(sil);
        lemma_removed_no_margin(sil.drop_last());
        assert(sil.last() == sil[sil.len() - 1]);
    }
}

/// With no margin, kept length plus total silence is exactly the duration.
pub proof fn lemma_coverage_without_margin(silences: Seq<TimeInterval>, duration: u64)
    requires
        silences_sorted(silences),
        silences_within(silences, duration),
    ensures
        total_len(keep_ranges(silences, duration, 0)) + total_silence(silences) == duration,
{
    lemma_coverage(silences, duration, 0);
    lemma_removed_no_margin(silences);
}

/// Turns an ordered silence list into the ranges of the video to keep.
///
/// Walks the silences with a cursor starting at zero. Before each silence
/// `(s, e)` the span from the cursor to `min(s + margin, duration)` is kept
/// when it is not empty; the cursor then moves to the later of `e - margin`
/// (at least zero) and that keep end. Whatever lies after the last cursor is
/// kept too. Touching ranges are left apart.
pub fn compute_keep_ranges(silences: &Vec<TimeInterval>, duration: u64, margin: u64) -> (r: Vec<
    TimeInterval,
>)
    ensures
        r@ == keep_ranges(silences@, duration, margin),
        silences_sorted(silences@) ==> keep_list_wf(r@, duration),
{
    let mut out: Vec<TimeInterval> = Vec::new();
    let mut cursor: u64 = 0;
    let mut i: usize = 0;
    while i < silences.len()
        invariant
            i <= silences@.len(),
            reduce_prefix(silences@.take(i as int), duration, margin) == (cursor, out@),
        decreases silences@.len() - i,
    {
        let iv = silences[i];
        proof {
            assert(silences@.take(i + 1).drop_last() =~= silences@.take(i as int));
        }
        let ke = if iv.start < duration && margin < duration - iv.start {
            iv.start + margin
        } else {
            duration
        };
        if ke > cursor {
            out.push(TimeInterval { start: cursor, end: ke });
        }
        let resume = if iv.end >= margin {
            iv.end - margin
        } else {
            0
        };
        cursor = if resume >= ke {
            resume
        } else {
            ke
        };
        i = i + 1;
    }
    proof {
        assert(silences@.take(i as int) =~= silences@);
        if silences_sorted(silences@) {
            lemma_keep_ranges_wf(silences@, duration, margin);
        }
    }
    if cursor < duration {
        out.push(TimeInterval { start: cursor, end: duration });
    }
    out
}

} // verus!
