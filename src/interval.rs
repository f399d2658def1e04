use vstd::prelude::*;

verus! {

/// A span of the timeline, in microseconds.
#[derive(Clone, Copy, Debug, PartialEq, Eq, Structural)]
pub struct TimeInterval {
    pub start: u64,
    pub end: u64,
}

/// Why an interval operation produced nothing usable.
#[derive(Clone, Copy, Debug, PartialEq, Eq, Structural)]
pub enum IntervalError {
    /// The result would have a non-positive length.
    DegenerateInterval,
}

impl TimeInterval {
    pub open spec fn wf(self) -> bool {
        self.start <= self.end
    }

    pub open spec fn len(self) -> int {
        self.end - self.start
    }

    pub fn new(start: u64, end: u64) -> (r: TimeInterval)
        ensures
            r.start == start,
            r.end == end,
    {
        TimeInterval { start, end }
    }
}

pub open spec fn min_u64(a: u64, b: u64) -> u64 {
    if a <= b {
        a
    } else {
        b
    }
}

pub open spec fn max_u64(a: u64, b: u64) -> u64 {
    if a >= b {
        a
    } else {
        b
    }
}

/// `t` pushed into `[lower, upper]` (the lower bound wins if they cross).
pub open spec fn clamp_point(t: u64, lower: u64, upper: u64) -> u64 {
    max_u64(min_u64(t, upper), lower)
}

/// `t - d`, or zero where that would be negative.
pub open spec fn sub_floor(t: u64, d: u64) -> u64 {
    if t >= d {
        (t - d) as u64
    } else {
        0
    }
}

/// `t + d`, or `u64::MAX` where that would not fit.
pub open spec fn add_ceil(t: u64, d: u64) -> u64 {
    if t + d <= u64::MAX {
        (t + d) as u64
    } else {
        u64::MAX
    }
}

/// The part of a silence that is really removed once `margin` is kept on
/// both of its edges, if any of it is left.
pub open spec fn contracted(iv: TimeInterval, margin: u64) -> Option<TimeInterval> {
    if iv.start + 2 * margin < iv.end {
        Some(TimeInterval { start: (iv.start + margin) as u64, end: (iv.end - margin) as u64 })
    } else {
        None
    }
}

/// Length of what a silence removes under `margin`.
pub open spec fn removed_len(iv: TimeInterval, margin: u64) -> int {
    match contracted(iv, margin) {
        Some(c) => c.len(),
        None => 0,
    }
}

fn min_of(a: u64, b: u64) -> (r: u64)
    ensures
        r == min_u64(a, b),
{
    if a <= b {
        a
    } else {
        b
    }
}

fn max_of(a: u64, b: u64) -> (r: u64)
    ensures
        r == max_u64(a, b),
{
    if a >= b {
        a
    } else {
        b
    }
}

/// Truncates both ends of `iv` into `[lower, upper]`; fails when nothing of
/// positive length is left.
pub fn clamp(iv: TimeInterval, lower: u64, upper: u64) -> (r: Result<TimeInterval, IntervalError>)
    ensures
        ({
            let s = clamp_point(iv.start, lower, upper);
            let e = clamp_point(iv.end, lower, upper);
            &&& s < e ==> r == Ok::<TimeInterval, IntervalError>(TimeInterval { start: s, end: e })
            &&& e <= s ==> r == Err::<TimeInterval, IntervalError>(IntervalError::DegenerateInterval)
        }),
{
    let s = max_of(min_of(iv.start, upper), lower);
    let e = max_of(min_of(iv.end, upper), lower);
    if s < e {
        Ok(TimeInterval { start: s, end: e })
    } else {
        Err(IntervalError::DegenerateInterval)
    }
}

/// Widens `iv` by `margin` on both sides, then clamps it into `[lower, upper]`.
pub fn expand_margin(iv: TimeInterval, margin: u64, lower: u64, upper: u64) -> (r: Result<
    TimeInterval,
    IntervalError,
>)
    ensures
        ({
            let s = clamp_point(sub_floor(iv.start, margin), lower, upper);
            let e = clamp_point(add_ceil(iv.end, margin), lower, upper);
            &&& s < e ==> r == Ok::<TimeInterval, IntervalError>(TimeInterval { start: s, end: e })
            &&& e <= s ==> r == Err::<TimeInterval, IntervalError>(IntervalError::DegenerateInterval)
        }),
{
    let s = if iv.start >= margin {
        iv.start - margin
    } else {
        0
    };
    let e = if iv.end <= u64::MAX - margin {
        iv.end + margin
    } else {
        u64::MAX
    };
    clamp(TimeInterval { start: s, end: e }, lower, upper)
}

/// The span of a silence that is actually cut when `margin` of it is kept at
/// each edge; `None` when the margins meet or cross, so the silence is kept
/// whole.
pub fn contract_margin(iv: TimeInterval, margin: u64) -> (r: Option<TimeInterval>)
    ensures
        r == contracted(iv, margin),
{
    if iv.start < iv.end && margin < (iv.end - iv.start) / 2 + (iv.end - iv.start) % 2 {
        proof {
            assert(iv.start + 2 * margin < iv.end);
        }
        Some(TimeInterval { start: iv.start + margin, end: iv.end - margin })
    } else {
        None
    }
}

} // verus!
