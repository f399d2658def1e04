use vstd::prelude::*;
use crate::interval::TimeInterval;
use crate::keep::{keep_list_wf, total_len};

verus! {

/// A point of the original timeline that lies in a cut span.
#[derive(Clone, Copy, Debug, PartialEq, Eq, Structural)]
pub struct PointRemoved {
    /// How many keep ranges lie wholly before the point.
    pub gap: usize,
    /// The closest edge of a kept range (the earlier one on a tie), if any
    /// range is kept at all.
    pub nearest_boundary: Option<u64>,
}

pub open spec fn contains_point(iv: TimeInterval, t: u64) -> bool {
    iv.start <= t <= iv.end
}

/// The kept edge closest to `t`, for a point that lies after the first
/// `gap` ranges and before the rest.
pub open spec fn nearest_at(t: u64, rs: Seq<TimeInterval>, gap: int) -> Option<u64> {
    if gap > 0 && gap < rs.len() {
        if t - rs[gap - 1].end <= rs[gap].start - t {
            Some(rs[gap - 1].end)
        } else {
            Some(rs[gap].start)
        }
    } else if gap > 0 {
        Some(rs[gap - 1].end)
    } else if gap < rs.len() {
        Some(rs[gap].start)
    } else {
        None
    }
}

proof fn lemma_total_len_take(rs: Seq<TimeInterval>, i: int)
    requires
        0 <= i < rs.len(),
    ensures
        total_len(rs.take(i + 1)) == total_len(rs.take(i)) + rs[i].len(),
{
    assert(rs.take(i + 1).drop_last() =~= rs.take(i));
}

/// Maps `t` of the original timeline to its place in the edited one: the
/// kept length before the range that holds `t`, plus the offset of `t` in
/// it. A point that falls in a cut span yields `PointRemoved`.
pub fn map_to_edited(t: u64, keep_ranges: &Vec<TimeInterval>) -> (r: Result<u64, PointRemoved>)
    requires
        keep_list_wf(keep_ranges@, u64::MAX),
    ensures
        (exists|k: int| 0 <= k < keep_ranges@.len() && contains_point(keep_ranges@[k], t)) ==> (
        forall|k: int|
            0 <= k < keep_ranges@.len() && #[trigger] contains_point(keep_ranges@[k], t) ==> r
                == Ok::<u64, PointRemoved>(
                (total_len(keep_ranges@.take(k)) + t - keep_ranges@[k].start) as u64,
            )),
        (forall|k: int| 0 <= k < keep_ranges@.len() ==> !contains_point(keep_ranges@[k], t)) ==> (
        match r {
            Ok(_) => false,
            Err(e) => {
                &&& e.gap <= keep_ranges@.len()
                &&& forall|j: int| 0 <= j < e.gap ==> #[trigger] keep_ranges@[j].end < t
                &&& forall|j: int| e.gap <= j < keep_ranges@.len() ==> t < #[trigger] keep_ranges@[j].start
                &&& e.nearest_boundary == nearest_at(t, keep_ranges@, e.gap as int)
            },
        }),
{
    let ghost rs = keep_ranges@;
    let n = keep_ranges.len();
    let mut acc: u64 = 0;
    let mut i: usize = 0;
    while i < n
        invariant
            n == rs.len(),
            rs == keep_ranges@,
            keep_list_wf(rs, u64::MAX),
            i <= n,
            acc == total_len(rs.take(i as int)),
            i < n ==> acc <= rs[i as int].start,
            forall|j: int| 0 <= j < i ==> #[trigger] rs[j].end < t,
        decreases n - i,
    {
        let iv = keep_ranges[i];
        proof {
            lemma_total_len_take(rs, i as int);
        }
        if t < iv.start {
            proof {
                assert forall|j: int| i <= j < n implies t < #[trigger] rs[j].start by {
                    if j > i {
                        assert(rs[i as int].end <= rs[j].start);
                    }
                }
            }
            let nearest = if i > 0 {
                let prev = keep_ranges[i - 1].end;
                if t - prev <= iv.start - t {
                    Some(prev)
                } else {
                    Some(iv.start)
                }
            } else {
                Some(iv.start)
            };
            return Err(PointRemoved { gap: i, nearest_boundary: nearest });
        }
        if t <= iv.end {
            proof {
                assert forall|k: int|
                    0 <= k < n && #[trigger] contains_point(rs[k], t) implies k == i || (k == i + 1
                        && t == rs[i as int].end) by {
                    if k > i + 1 {
                        assert(rs[i + 1].end <= rs[k].start);
                    }
                }
                if i + 1 < n && t == rs[i as int].end {
                    lemma_total_len_take(rs, i as int);
                }
            }
            return Ok(acc + (t - iv.start));
        }
        acc = acc + (iv.end - iv.start);
        proof {
            if i + 1 < n {
                assert(rs[i as int].end <= rs[i + 1].start);
            }
        }
        i = i + 1;
    }
    let nearest = if n > 0 {
        Some(keep_ranges[n - 1].end)
    } else {
        None
    };
    Err(PointRemoved { gap: n, nearest_boundary: nearest })
}

} // verus!
