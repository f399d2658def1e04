use vstd::prelude::*;
use crate::interval::TimeInterval;
use vstd::string::StringSliceAdditionalSpecFns;

verus! {

pub open spec fn is_digit(c: u8) -> bool {
    48 <= c <= 57
}

pub open spec fn is_dot(c: u8) -> bool {
    c == 46
}

/// Length in bytes of the UTF-8 character that starts at `j`, or zero
/// when `j` is out of range or the character runs past the end.
pub open spec fn char_len(b: Seq<u8>, j: int) -> int {
    if j < 0 || j >= b.len() {
        0
    } else {
        let n: int = if b[j] < 0x80 {
            1
        } else if b[j] >= 0xf0 {
            4
        } else if b[j] >= 0xe0 {
            3
        } else {
            2
        };
        if j + n <= b.len() {
            n
        } else {
            0
        }
    }
}

/// The code point of the UTF-8 character that starts at `j`.
pub open spec fn code_point(b: Seq<u8>, j: int) -> int {
    let n = char_len(b, j);
    if n == 1 {
        b[j] as int
    } else if n == 2 {
        (b[j] - 0xc0) * 0x40 + (b[j + 1] - 0x80)
    } else if n == 3 {
        (b[j] - 0xe0) * 0x1000 + (b[j + 1] - 0x80) * 0x40 + (b[j + 2] - 0x80)
    } else if n == 4 {
        (b[j] - 0xf0) * 0x40000 + (b[j + 1] - 0x80) * 0x1000 + (b[j + 2] - 0x80) * 0x40 + (b[j
            + 3] - 0x80)
    } else {
        -1
    }
}

/// Unicode `White_Space` other than the line feed, which ends a line.
pub open spec fn is_blank_cp(c: int) -> bool {
    (0x9 <= c && c <= 0xd && c != 0xa) || c == 0x20 || c == 0x85 || c == 0xa0 || c == 0x1680 || (
    0x2000 <= c && c <= 0x200a) || c == 0x2028 || c == 0x2029 || c == 0x202f || c == 0x205f || c
        == 0x3000
}

/// Unicode `Decimal_Number` (Unicode 16.0).
pub open spec fn is_decimal_cp(c: int) -> bool {
    (0x30 <= c && c <= 0x39)
        || (0x660 <= c && c <= 0x669)
        || (0x6f0 <= c && c <= 0x6f9)
        || (0x7c0 <= c && c <= 0x7c9)
        || (0x966 <= c && c <= 0x96f)
        || (0x9e6 <= c && c <= 0x9ef)
        || (0xa66 <= c && c <= 0xa6f)
        || (0xae6 <= c && c <= 0xaef)
        || (0xb66 <= c && c <= 0xb6f)
        || (0xbe6 <= c && c <= 0xbef)
        || (0xc66 <= c && c <= 0xc6f)
        || (0xce6 <= c && c <= 0xcef)
        || (0xd66 <= c && c <= 0xd6f)
        || (0xde6 <= c && c <= 0xdef)
        || (0xe50 <= c && c <= 0xe59)
        || (0xed0 <= c && c <= 0xed9)
        || (0xf20 <= c && c <= 0xf29)
        || (0x1040 <= c && c <= 0x1049)
        || (0x1090 <= c && c <= 0x1099)
        || (0x17e0 <= c && c <= 0x17e9)
        || (0x1810 <= c && c <= 0x1819)
        || (0x1946 <= c && c <= 0x194f)
        || (0x19d0 <= c && c <= 0x19d9)
        || (0x1a80 <= c && c <= 0x1a89)
        || (0x1a90 <= c && c <= 0x1a99)
        || (0x1b50 <= c && c <= 0x1b59)
        || (0x1bb0 <= c && c <= 0x1bb9)
        || (0x1c40 <= c && c <= 0x1c49)
        || (0x1c50 <= c && c <= 0x1c59)
        || (0xa620 <= c && c <= 0xa629)
        || (0xa8d0 <= c && c <= 0xa8d9)
        || (0xa900 <= c && c <= 0xa909)
        || (0xa9d0 <= c && c <= 0xa9d9)
        || (0xa9f0 <= c && c <= 0xa9f9)
        || (0xaa50 <= c && c <= 0xaa59)
        || (0xabf0 <= c && c <= 0xabf9)
        || (0xff10 <= c && c <= 0xff19)
        || (0x104a0 <= c && c <= 0x104a9)
        || (0x10d30 <= c && c <= 0x10d39)
        || (0x10d40 <= c && c <= 0x10d49)
        || (0x11066 <= c && c <= 0x1106f)
        || (0x110f0 <= c && c <= 0x110f9)
        || (0x11136 <= c && c <= 0x1113f)
        || (0x111d0 <= c && c <= 0x111d9)
        || (0x112f0 <= c && c <= 0x112f9)
        || (0x11450 <= c && c <= 0x11459)
        || (0x114d0 <= c && c <= 0x114d9)
        || (0x11650 <= c && c <= 0x11659)
        || (0x116c0 <= c && c <= 0x116c9)
        || (0x116d0 <= c && c <= 0x116e3)
        || (0x11730 <= c && c <= 0x11739)
        || (0x118e0 <= c && c <= 0x118e9)
        || (0x11950 <= c && c <= 0x11959)
        || (0x11bf0 <= c && c <= 0x11bf9)
        || (0x11c50 <= c && c <= 0x11c59)
        || (0x11d50 <= c && c <= 0x11d59)
        || (0x11da0 <= c && c <= 0x11da9)
        || (0x11f50 <= c && c <= 0x11f59)
        || (0x16130 <= c && c <= 0x16139)
        || (0x16a60 <= c && c <= 0x16a69)
        || (0x16ac0 <= c && c <= 0x16ac9)
        || (0x16b50 <= c && c <= 0x16b59)
        || (0x16d70 <= c && c <= 0x16d79)
        || (0x1ccf0 <= c && c <= 0x1ccf9)
        || (0x1d7ce <= c && c <= 0x1d7ff)
        || (0x1e140 <= c && c <= 0x1e149)
        || (0x1e2f0 <= c && c <= 0x1e2f9)
        || (0x1e4f0 <= c && c <= 0x1e4f9)
        || (0x1e5f1 <= c && c <= 0x1e5fa)
        || (0x1e950 <= c && c <= 0x1e959)
        || (0x1fbf0 <= c && c <= 0x1fbf9)
}

/// A blank character starts at `j`.
pub open spec fn blank_at(b: Seq<u8>, j: int) -> bool {
    char_len(b, j) > 0 && is_blank_cp(code_point(b, j))
}

/// A decimal digit of any script starts at `j`.
pub open spec fn decimal_at(b: Seq<u8>, j: int) -> bool {
    char_len(b, j) > 0 && is_decimal_cp(code_point(b, j))
}

pub open spec fn all_digits(s: Seq<u8>) -> bool {
    forall|i: int| 0 <= i < s.len() ==> #[trigger] is_digit(s[i])
}

/// The number that the decimal digits `s` spell.
pub open spec fn digits_value(s: Seq<u8>) -> nat
    decreases s.len(),
{
    if s.len() == 0 {
        0
    } else {
        digits_value(s.drop_last()) * 10 + (s.last() - 48) as nat
    }
}

/// Index of the first dot of `s` at or after `i`, or its length.
pub open spec fn dot_index(s: Seq<u8>, i: int) -> int
    decreases s.len() - i,
{
    if i >= s.len() || i < 0 {
        s.len() as int
    } else if is_dot(s[i]) {
        i
    } else {
        dot_index(s, i + 1)
    }
}

/// The first six digits of a fraction, padded with zeros.
pub open spec fn six_places(f: Seq<u8>) -> Seq<u8> {
    Seq::new(6, |j: int| if j < f.len() { f[j] } else { 48u8 })
}

/// A decimal number of seconds as microseconds: digits, optionally a dot
/// and more digits, with at least one digit in all. Places after the sixth
/// are dropped. `None` when the text is no such number or does not fit.
pub open spec fn seconds_value(s: Seq<u8>) -> Option<u64> {
    let d = dot_index(s, 0);
    let int_part = s.take(d);
    let frac = if d < s.len() {
        s.skip(d + 1)
    } else {
        Seq::empty()
    };
    let v = digits_value(int_part) * 1_000_000 + digits_value(six_places(frac));
    if all_digits(int_part) && all_digits(frac) && int_part.len() + frac.len() > 0 && v
        <= u64::MAX {
        Some(v as u64)
    } else {
        None
    }
}

proof fn lemma_digits_grow(s: Seq<u8>, i: int, j: int)
    requires
        0 <= i <= j <= s.len(),
    ensures
        digits_value(s.take(i)) <= digits_value(s.take(j)),
    decreases j - i,
{
    if i < j {
        lemma_digits_grow(s, i, j - 1);
        assert(s.take(j).drop_last() =~= s.take(j - 1));
    }
}

proof fn lemma_dot_index_bounds(s: Seq<u8>, i: int)
    requires
        0 <= i <= s.len(),
    ensures
        i <= dot_index(s, i) <= s.len(),
        dot_index(s, i) < s.len() ==> is_dot(s[dot_index(s, i)]),
        forall|k: int| i <= k < dot_index(s, i) ==> !is_dot(#[trigger] s[k]),
    decreases s.len() - i,
{
    if i < s.len() && !is_dot(s[i]) {
        lemma_dot_index_bounds(s, i + 1);
    }
}

/// Reads the seconds value spelled by `b[lo..hi]`.
pub fn parse_seconds(b: &[u8], lo: usize, hi: usize) -> (r: Option<u64>)
    requires
        lo <= hi <= b@.len(),
    ensures
        r == seconds_value(b@.subrange(lo as int, hi as int)),
{
    let ghost s = b@.subrange(lo as int, hi as int);
    proof {
        lemma_dot_index_bounds(s, 0);
    }
    let mut d: usize = lo;
    while d < hi && b[d] != 46
        invariant
            lo <= d <= hi <= b@.len(),
            s == b@.subrange(lo as int, hi as int),
            forall|k: int| lo <= k < d ==> !is_dot(#[trigger] b@[k]),
        decreases hi - d,
    {
        d = d + 1;
    }
    proof {
        assert(dot_index(s, 0) == d - lo) by {
            assert forall|k: int| 0 <= k < d - lo implies !is_dot(#[trigger] s[k]) by {
                assert(s[k] == b@[lo + k]);
            }
            if dot_index(s, 0) < d - lo {
                assert(s[dot_index(s, 0)] == b@[lo + dot_index(s, 0)]);
            }
            if d < hi {
                assert(s[d - lo] == b@[d as int]);
            }
        }
    }
    let ghost int_part = s.take(d - lo);
    let ghost frac = if d < hi {
        s.skip(d - lo + 1)
    } else {
        Seq::<u8>::empty()
    };
    let mut int_v: u64 = 0;
    let mut i: usize = lo;
    while i < d
        invariant
            lo <= i <= d <= hi <= b@.len(),
            s == b@.subrange(lo as int, hi as int),
            int_part == s.take(d - lo),
            dot_index(s, 0) == d - lo,
            d < hi ==> frac == s.skip(d - lo + 1),
            d >= hi ==> frac == Seq::<u8>::empty(),
            int_v == digits_value(int_part.take(i - lo)),
            all_digits(int_part.take(i - lo)),
        decreases d - i,
    {
        let c = b[i];
        proof {
            assert(s[i - lo] == b@[i as int]);
            assert(int_part[i - lo] == c);
            assert(int_part.take(i - lo + 1).drop_last() =~= int_part.take(i - lo));
        }
        if c < 48 || c > 57 {
            proof {
                assert(!is_digit(int_part[i - lo]));
                assert(!all_digits(int_part));
            }
            return None;
        }
        let next = match int_v.checked_mul(10) {
            Some(x) => x.checked_add((c - 48) as u64),
            None => None,
        };
        match next {
            Some(x) => {
                int_v = x;
            },
            None => {
                proof {
                    lemma_digits_grow(int_part, i - lo + 1, int_part.len() as int);
                    assert(int_part.take(int_part.len() as int) =~= int_part);
                    let dv = digits_value(int_part);
                    assert(dv * 1_000_000 >= dv) by (nonlinear_arith)
                        requires
                            dv >= 0,
                    ;
                }
                return None;
            },
        }
        proof {
            assert forall|k: int| 0 <= k < i - lo + 1 implies #[trigger] is_digit(
                int_part.take(i - lo + 1)[k],
            ) by {
                if k < i - lo {
                    assert(int_part.take(i - lo + 1)[k] == int_part.take(i - lo)[k]);
                }
            }
        }
        i = i + 1;
    }
    proof {
        assert(int_part.take(d - lo) =~= int_part);
    }
    let fs: usize = if d < hi {
        d + 1
    } else {
        hi
    };
    proof {
        assert(frac =~= b@.subrange(fs as int, hi as int));
    }
    let mut j: usize = fs;
    while j < hi
        invariant
            fs <= j <= hi <= b@.len(),
            frac == b@.subrange(fs as int, hi as int),
            s == b@.subrange(lo as int, hi as int),
            int_part == s.take(d - lo),
            dot_index(s, 0) == d - lo,
            d < hi ==> frac == s.skip(d - lo + 1),
            d >= hi ==> frac == Seq::<u8>::empty(),
            forall|k: int| fs <= k < j ==> is_digit(#[trigger] b@[k]),
        decreases hi - j,
    {
        if b[j] < 48 || b[j] > 57 {
            proof {
                assert(frac[j - fs] == b@[j as int]);
                assert(!is_digit(frac[j - fs]));
                assert(!all_digits(frac));
            }
            return None;
        }
        j = j + 1;
    }
    proof {
        assert forall|k: int| 0 <= k < frac.len() implies #[trigger] is_digit(frac[k]) by {
            assert(frac[k] == b@[fs + k]);
        }
    }
    if d == lo && fs == hi {
        return None;
    }
    let f = six_place_value(b, fs, hi);
    match int_v.checked_mul(1_000_000) {
        Some(x) => x.checked_add(f),
        None => None,
    }
}

/// `silence_start:`
pub open spec fn start_marker() -> Seq<u8> {
    seq![115u8, 105, 108, 101, 110, 99, 101, 95, 115, 116, 97, 114, 116, 58]
}

/// `silence_end:`
pub open spec fn end_marker() -> Seq<u8> {
    seq![115u8, 105, 108, 101, 110, 99, 101, 95, 101, 110, 100, 58]
}

pub open spec fn marker_at(b: Seq<u8>, p: int, m: Seq<u8>) -> bool {
    0 <= p && p + m.len() <= b.len() && b.subrange(p, p + m.len()) == m
}

/// First index at or after `j` where no blank character starts.
pub open spec fn skip_blanks(b: Seq<u8>, j: int) -> int
    decreases b.len() - j,
{
    if 0 <= j < b.len() && blank_at(b, j) {
        skip_blanks(b, j + char_len(b, j))
    } else {
        j
    }
}

/// First index at or after `j` where neither a dot nor a decimal digit (of
/// any script) starts.
pub open spec fn number_end(b: Seq<u8>, j: int) -> int
    decreases b.len() - j,
{
    if 0 <= j < b.len() && (is_dot(b[j]) || decimal_at(b, j)) {
        number_end(b, j + if is_dot(b[j]) {
            1
        } else {
            char_len(b, j)
        })
    } else {
        j
    }
}

/// The seconds value written after marker `m` at `p`: blanks, then a run
/// of digits and dots that reads as a number. A run that holds a digit
/// outside ASCII does not read.
pub open spec fn value_after(b: Seq<u8>, p: int, m: Seq<u8>) -> Option<u64> {
    if marker_at(b, p, m) {
        let j = skip_blanks(b, p + m.len());
        let k = number_end(b, j);
        if j < k {
            seconds_value(b.subrange(j, k))
        } else {
            None
        }
    } else {
        None
    }
}

/// After reading the log up to position `i`: the start still waiting for
/// its end, and the silences paired so far. A start replaces any earlier
/// unpaired one; an end pairs with the waiting start, if there is one.
pub open spec fn silence_scan(b: Seq<u8>, i: int) -> (Option<u64>, Seq<TimeInterval>)
    decreases i,
{
    if i <= 0 {
        (None, Seq::empty())
    } else {
        let (pending, acc) = silence_scan(b, i - 1);
        let p = i - 1;
        let pending2 = match value_after(b, p, start_marker()) {
            Some(v) => Some(v),
            None => pending,
        };
        match (value_after(b, p, end_marker()), pending2) {
            (Some(e), Some(st)) => (None, acc.push(TimeInterval { start: st, end: e })),
            _ => (pending2, acc),
        }
    }
}

/// The silences that a silencedetect log reports, in document order.
pub open spec fn silences_in_log(b: Seq<u8>) -> Seq<TimeInterval> {
    silence_scan(b, b.len() as int).1
}

fn char_len_exec(b: &[u8], j: usize) -> (r: usize)
    ensures
        r as int == char_len(b@, j as int),
        r <= 4,
        r > 0 ==> j + r <= b@.len(),
{
    if j >= b.len() {
        return 0;
    }
    let c = b[j];
    let n: usize = if c < 0x80 {
        1
    } else if c >= 0xf0 {
        4
    } else if c >= 0xe0 {
        3
    } else {
        2
    };
    if n <= b.len() - j {
        n
    } else {
        0
    }
}

fn code_point_exec(b: &[u8], j: usize) -> (r: i64)
    ensures
        r as int == code_point(b@, j as int),
{
    let n = char_len_exec(b, j);
    if n == 1 {
        b[j] as i64
    } else if n == 2 {
        (b[j] as i64 - 0xc0) * 0x40 + (b[j + 1] as i64 - 0x80)
    } else if n == 3 {
        (b[j] as i64 - 0xe0) * 0x1000 + (b[j + 1] as i64 - 0x80) * 0x40 + (b[j + 2] as i64 - 0x80)
    } else if n == 4 {
        (b[j] as i64 - 0xf0) * 0x40000 + (b[j + 1] as i64 - 0x80) * 0x1000 + (b[j + 2] as i64
            - 0x80) * 0x40 + (b[j + 3] as i64 - 0x80)
    } else {
        -1
    }
}

fn is_blank_exec(c: i64) -> (r: bool)
    ensures
        r == is_blank_cp(c as int),
{
    (0x9 <= c && c <= 0xd && c != 0xa) || c == 0x20 || c == 0x85 || c == 0xa0 || c == 0x1680 || (
    0x2000 <= c && c <= 0x200a) || c == 0x2028 || c == 0x2029 || c == 0x202f || c == 0x205f || c
        == 0x3000
}

fn is_decimal_exec(c: i64) -> (r: bool)
    ensures
        r == is_decimal_cp(c as int),
{
    (0x30 <= c && c <= 0x39)
        || (0x660 <= c && c <= 0x669)
        || (0x6f0 <= c && c <= 0x6f9)
        || (0x7c0 <= c && c <= 0x7c9)
        || (0x966 <= c && c <= 0x96f)
        || (0x9e6 <= c && c <= 0x9ef)
        || (0xa66 <= c && c <= 0xa6f)
        || (0xae6 <= c && c <= 0xaef)
        || (0xb66 <= c && c <= 0xb6f)
        || (0xbe6 <= c && c <= 0xbef)
        || (0xc66 <= c && c <= 0xc6f)
        || (0xce6 <= c && c <= 0xcef)
        || (0xd66 <= c && c <= 0xd6f)
        || (0xde6 <= c && c <= 0xdef)
        || (0xe50 <= c && c <= 0xe59)
        || (0xed0 <= c && c <= 0xed9)
        || (0xf20 <= c && c <= 0xf29)
        || (0x1040 <= c && c <= 0x1049)
        || (0x1090 <= c && c <= 0x1099)
        || (0x17e0 <= c && c <= 0x17e9)
        || (0x1810 <= c && c <= 0x1819)
        || (0x1946 <= c && c <= 0x194f)
        || (0x19d0 <= c && c <= 0x19d9)
        || (0x1a80 <= c && c <= 0x1a89)
        || (0x1a90 <= c && c <= 0x1a99)
        || (0x1b50 <= c && c <= 0x1b59)
        || (0x1bb0 <= c && c <= 0x1bb9)
        || (0x1c40 <= c && c <= 0x1c49)
        || (0x1c50 <= c && c <= 0x1c59)
        || (0xa620 <= c && c <= 0xa629)
        || (0xa8d0 <= c && c <= 0xa8d9)
        || (0xa900 <= c && c <= 0xa909)
        || (0xa9d0 <= c && c <= 0xa9d9)
        || (0xa9f0 <= c && c <= 0xa9f9)
        || (0xaa50 <= c && c <= 0xaa59)
        || (0xabf0 <= c && c <= 0xabf9)
        || (0xff10 <= c && c <= 0xff19)
        || (0x104a0 <= c && c <= 0x104a9)
        || (0x10d30 <= c && c <= 0x10d39)
        || (0x10d40 <= c && c <= 0x10d49)
        || (0x11066 <= c && c <= 0x1106f)
        || (0x110f0 <= c && c <= 0x110f9)
        || (0x11136 <= c && c <= 0x1113f)
        || (0x111d0 <= c && c <= 0x111d9)
        || (0x112f0 <= c && c <= 0x112f9)
        || (0x11450 <= c && c <= 0x11459)
        || (0x114d0 <= c && c <= 0x114d9)
        || (0x11650 <= c && c <= 0x11659)
        || (0x116c0 <= c && c <= 0x116c9)
        || (0x116d0 <= c && c <= 0x116e3)
        || (0x11730 <= c && c <= 0x11739)
        || (0x118e0 <= c && c <= 0x118e9)
        || (0x11950 <= c && c <= 0x11959)
        || (0x11bf0 <= c && c <= 0x11bf9)
        || (0x11c50 <= c && c <= 0x11c59)
        || (0x11d50 <= c && c <= 0x11d59)
        || (0x11da0 <= c && c <= 0x11da9)
        || (0x11f50 <= c && c <= 0x11f59)
        || (0x16130 <= c && c <= 0x16139)
        || (0x16a60 <= c && c <= 0x16a69)
        || (0x16ac0 <= c && c <= 0x16ac9)
        || (0x16b50 <= c && c <= 0x16b59)
        || (0x16d70 <= c && c <= 0x16d79)
        || (0x1ccf0 <= c && c <= 0x1ccf9)
        || (0x1d7ce <= c && c <= 0x1d7ff)
        || (0x1e140 <= c && c <= 0x1e149)
        || (0x1e2f0 <= c && c <= 0x1e2f9)
        || (0x1e4f0 <= c && c <= 0x1e4f9)
        || (0x1e5f1 <= c && c <= 0x1e5fa)
        || (0x1e950 <= c && c <= 0x1e959)
        || (0x1fbf0 <= c && c <= 0x1fbf9)
}

fn blank_at_exec(b: &[u8], j: usize) -> (r: bool)
    ensures
        r == blank_at(b@, j as int),
{
    char_len_exec(b, j) > 0 && is_blank_exec(code_point_exec(b, j))
}

fn decimal_at_exec(b: &[u8], j: usize) -> (r: bool)
    ensures
        r == decimal_at(b@, j as int),
{
    char_len_exec(b, j) > 0 && is_decimal_exec(code_point_exec(b, j))
}

fn skip_blanks_from(b: &[u8], j: usize) -> (r: usize)
    requires
        j <= b@.len(),
    ensures
        r as int == skip_blanks(b@, j as int),
        j <= r <= b@.len(),
{
    let mut k = j;
    while k < b.len() && blank_at_exec(b, k)
        invariant
            j <= k <= b@.len(),
            skip_blanks(b@, k as int) == skip_blanks(b@, j as int),
        decreases b@.len() - k,
    {
        k = k + char_len_exec(b, k);
    }
    k
}

fn number_end_from(b: &[u8], j: usize) -> (r: usize)
    requires
        j <= b@.len(),
    ensures
        r as int == number_end(b@, j as int),
        j <= r <= b@.len(),
{
    let mut k = j;
    while k < b.len() && (b[k] == 46 || decimal_at_exec(b, k))
        invariant
            j <= k <= b@.len(),
            number_end(b@, k as int) == number_end(b@, j as int),
        decreases b@.len() - k,
    {
        if b[k] == 46 {
            k = k + 1;
        } else {
            k = k + char_len_exec(b, k);
        }
    }
    k
}

fn marker_at_exec(b: &[u8], p: usize, m: &Vec<u8>) -> (r: bool)
    ensures
        r == marker_at(b@, p as int, m@),
{
    let n = b.len();
    if p > n || m.len() > n - p {
        return false;
    }
    let mut k: usize = 0;
    while k < m.len()
        invariant
            n == b@.len(),
            p + m@.len() <= n,
            k <= m@.len(),
            forall|q: int| 0 <= q < k ==> b@[p + q] == #[trigger] m@[q],
        decreases m@.len() - k,
    {
        if b[p + k] != m[k] {
            proof {
                assert(b@.subrange(p as int, p + m@.len())[k as int] != m@[k as int]);
            }
            return false;
        }
        k = k + 1;
    }
    proof {
        assert(b@.subrange(p as int, p + m@.len()) =~= m@);
    }
    true
}

fn value_after_exec(b: &[u8], p: usize, m: &Vec<u8>) -> (r: Option<u64>)
    ensures
        r == value_after(b@, p as int, m@),
{
    let n = b.len();
    if !marker_at_exec(b, p, m) {
        return None;
    }
    assert(p + m@.len() <= n);
    let j = skip_blanks_from(b, p + m.len());
    let k = number_end_from(b, j);
    if j < k {
        parse_seconds(b, j, k)
    } else {
        None
    }
}

/// Reads the silences out of ffmpeg's silencedetect log: each
/// `silence_start: <seconds>` waits for the next `silence_end: <seconds>`
/// and the two make one silence, in document order. Numbers that do not
/// read are skipped, as is an end with no start before it.
pub fn parse_silencedetect(output: &str) -> (r: Vec<TimeInterval>)
    ensures
        r@ == silences_in_log(output.spec_bytes()),
{
    let b = output.as_bytes();
    let sm: Vec<u8> = vec![115u8, 105, 108, 101, 110, 99, 101, 95, 115, 116, 97, 114, 116, 58];
    let em: Vec<u8> = vec![115u8, 105, 108, 101, 110, 99, 101, 95, 101, 110, 100, 58];
    proof {
        assert(sm@ =~= start_marker());
        assert(em@ =~= end_marker());
    }
    let mut pending: Option<u64> = None;
    let mut out: Vec<TimeInterval> = Vec::new();
    let mut i: usize = 0;
    while i < b.len()
        invariant
            i <= b@.len(),
            b@ == output.spec_bytes(),
            sm@ == start_marker(),
            em@ == end_marker(),
            silence_scan(b@, i as int) == (pending, out@),
        decreases b@.len() - i,
    {
        match value_after_exec(b, i, &sm) {
            Some(v) => {
                pending = Some(v);
            },
            None => {},
        }
        match value_after_exec(b, i, &em) {
            Some(e) => {
                match pending {
                    Some(st) => {
                        out.push(TimeInterval { start: st, end: e });
                        pending = None;
                    },
                    None => {},
                }
            },
            None => {},
        }
        i = i + 1;
    }
    out
}

/// `Duration: `
pub open spec fn duration_marker() -> Seq<u8> {
    seq![68u8, 117, 114, 97, 116, 105, 111, 110, 58, 32]
}

/// First index at or after `j` where no decimal digit (of any script)
/// starts.
pub open spec fn digits_end(b: Seq<u8>, j: int) -> int
    decreases b.len() - j,
{
    if 0 <= j < b.len() && decimal_at(b, j) {
        digits_end(b, j + char_len(b, j))
    } else {
        j
    }
}

pub open spec fn two_digits_at(b: Seq<u8>, q: int) -> bool {
    0 <= q && q + 1 < b.len() && is_digit(b[q]) && is_digit(b[q + 1])
}

pub open spec fn two_digit_value(b: Seq<u8>, q: int) -> int {
    (b[q] - 48) * 10 + (b[q + 1] - 48)
}

/// The duration written at `p` as `Duration: HH:MM:SS.F`, where `F` is one
/// or more digits of a fraction of a second, in microseconds (places after
/// the sixth dropped).
pub open spec fn duration_at(b: Seq<u8>, p: int) -> Option<u64> {
    let q = p + 10;
    if marker_at(b, p, duration_marker()) && two_digits_at(b, q) && q + 2 < b.len() && b[q + 2]
        == 58 && two_digits_at(b, q + 3) && q + 5 < b.len() && b[q + 5] == 58 && two_digits_at(
        b,
        q + 6,
    ) && q + 8 < b.len() && b[q + 8] == 46 && q + 9 < b.len() && is_digit(b[q + 9]) {
        let whole = two_digit_value(b, q) * 3600 + two_digit_value(b, q + 3) * 60
            + two_digit_value(b, q + 6);
        let frac = b.subrange(q + 9, digits_end(b, q + 9));
        if all_digits(frac) {
            Some((whole * 1_000_000 + digits_value(six_places(frac))) as u64)
        } else {
            None
        }
    } else {
        None
    }
}

/// Index just past the character that starts at `j`.
pub open spec fn after(b: Seq<u8>, j: int) -> int {
    j + char_len(b, j)
}

/// `Duration: dd:dd:dd.d` followed at `p`, where each `d` is a decimal digit
/// of any script: where the pattern matches, whether or not it reads.
pub open spec fn duration_match(b: Seq<u8>, p: int) -> bool {
    let q0 = p + 10;
    let q1 = after(b, q0);
    let q2 = after(b, q1);
    let q3 = q2 + 1;
    let q4 = after(b, q3);
    let q5 = after(b, q4);
    let q6 = q5 + 1;
    let q7 = after(b, q6);
    let q8 = after(b, q7);
    &&& marker_at(b, p, duration_marker())
    &&& decimal_at(b, q0)
    &&& decimal_at(b, q1)
    &&& 0 <= q2 < b.len() && b[q2] == 58
    &&& decimal_at(b, q3)
    &&& decimal_at(b, q4)
    &&& 0 <= q5 < b.len() && b[q5] == 58
    &&& decimal_at(b, q6)
    &&& decimal_at(b, q7)
    &&& 0 <= q8 < b.len() && b[q8] == 46
    &&& decimal_at(b, q8 + 1)
}

/// The first duration that reads in `b`, scanning from `p`. Only the first
/// match on a line counts: when it does not read, the rest of that line is
/// passed over (`skipping`).
pub open spec fn first_duration(b: Seq<u8>, p: int, skipping: bool) -> Option<u64>
    decreases b.len() - p,
{
    if p < 0 || p >= b.len() {
        None
    } else if b[p] == 10 {
        first_duration(b, p + 1, false)
    } else if skipping {
        first_duration(b, p + 1, true)
    } else if duration_match(b, p) {
        match duration_at(b, p) {
            Some(v) => Some(v),
            None => first_duration(b, p + 1, true),
        }
    } else {
        first_duration(b, p + 1, false)
    }
}

fn digits_end_from(b: &[u8], j: usize) -> (r: usize)
    requires
        j <= b@.len(),
    ensures
        r as int == digits_end(b@, j as int),
        j <= r <= b@.len(),
{
    let mut k = j;
    while k < b.len() && decimal_at_exec(b, k)
        invariant
            j <= k <= b@.len(),
            digits_end(b@, k as int) == digits_end(b@, j as int),
        decreases b@.len() - k,
    {
        k = k + char_len_exec(b, k);
    }
    k
}

fn after_exec(b: &[u8], j: usize) -> (r: usize)
    requires
        j <= b@.len(),
    ensures
        r as int == after(b@, j as int),
        r <= b@.len(),
{
    let n = b.len();
    let c = char_len_exec(b, j);
    assert(j + c <= n);
    j + c
}

fn duration_match_exec(b: &[u8], p: usize, dm: &Vec<u8>) -> (r: bool)
    requires
        dm@ == duration_marker(),
    ensures
        r == duration_match(b@, p as int),
{
    let n = b.len();
    if !marker_at_exec(b, p, dm) {
        return false;
    }
    let q0 = p + 10;
    if !decimal_at_exec(b, q0) {
        return false;
    }
    let q1 = after_exec(b, q0);
    if !decimal_at_exec(b, q1) {
        return false;
    }
    let q2 = after_exec(b, q1);
    if !(q2 < n && b[q2] == 58) {
        return false;
    }
    let q3 = q2 + 1;
    if !decimal_at_exec(b, q3) {
        return false;
    }
    let q4 = after_exec(b, q3);
    if !decimal_at_exec(b, q4) {
        return false;
    }
    let q5 = after_exec(b, q4);
    if !(q5 < n && b[q5] == 58) {
        return false;
    }
    let q6 = q5 + 1;
    if !decimal_at_exec(b, q6) {
        return false;
    }
    let q7 = after_exec(b, q6);
    if !decimal_at_exec(b, q7) {
        return false;
    }
    let q8 = after_exec(b, q7);
    if !(q8 < n && b[q8] == 46) {
        return false;
    }
    decimal_at_exec(b, q8 + 1)
}

fn all_digits_between(b: &[u8], lo: usize, hi: usize) -> (r: bool)
    requires
        lo <= hi <= b@.len(),
    ensures
        r == all_digits(b@.subrange(lo as int, hi as int)),
{
    let ghost s = b@.subrange(lo as int, hi as int);
    let mut k = lo;
    while k < hi
        invariant
            lo <= k <= hi <= b@.len(),
            s == b@.subrange(lo as int, hi as int),
            forall|i: int| 0 <= i < k - lo ==> #[trigger] is_digit(s[i]),
        decreases hi - k,
    {
        if b[k] < 48 || b[k] > 57 {
            proof {
                assert(s[k - lo] == b@[k as int]);
                assert(!is_digit(s[k - lo]));
            }
            return false;
        }
        proof {
            assert(s[k - lo] == b@[k as int]);
        }
        k = k + 1;
    }
    true
}

fn is_digit_at(b: &[u8], q: usize) -> (r: bool)
    ensures
        r == (q < b@.len() && is_digit(b@[q as int])),
{
    q < b.len() && b[q] >= 48 && b[q] <= 57
}

/// Value of the six-place fraction that starts at `lo` and ends before `hi`.
fn six_place_value(b: &[u8], lo: usize, hi: usize) -> (r: u64)
    requires
        lo <= hi <= b@.len(),
        all_digits(b@.subrange(lo as int, hi as int)),
    ensures
        r == digits_value(six_places(b@.subrange(lo as int, hi as int))),
        r < 1_000_000,
{
    let ghost frac = b@.subrange(lo as int, hi as int);
    let ghost six = six_places(frac);
    let mut f: u64 = 0;
    let mut p: usize = 0;
    while p < 6
        invariant
            p <= 6,
            lo <= hi <= b@.len(),
            frac == b@.subrange(lo as int, hi as int),
            six == six_places(frac),
            all_digits(frac),
            f == digits_value(six.take(p as int)),
            p == 0 ==> f == 0,
            p == 1 ==> f < 10,
            p == 2 ==> f < 100,
            p == 3 ==> f < 1000,
            p == 4 ==> f < 10000,
            p == 5 ==> f < 100000,
            p == 6 ==> f < 1000000,
        decreases 6 - p,
    {
        proof {
            assert(six.take(p + 1).drop_last() =~= six.take(p as int));
            if p < hi - lo {
                assert(six[p as int] == frac[p as int]);
                assert(frac[p as int] == b@[lo + p]);
                assert(is_digit(frac[p as int]));
            }
        }
        let digit: u64 = if p < hi - lo {
            (b[lo + p] - 48) as u64
        } else {
            0
        };
        f = f * 10 + digit;
        p = p + 1;
    }
    proof {
        assert(six.take(6) =~= six);
    }
    f
}

fn duration_at_exec(b: &[u8], p: usize, dm: &Vec<u8>) -> (r: Option<u64>)
    requires
        dm@ == duration_marker(),
    ensures
        r == duration_at(b@, p as int),
{
    let n = b.len();
    if !marker_at_exec(b, p, dm) {
        return None;
    }
    let q = p + 10;
    if !(is_digit_at(b, q) && is_digit_at(b, q + 1) && q + 2 < n && b[q + 2] == 58 && is_digit_at(
        b,
        q + 3,
    ) && is_digit_at(b, q + 4) && q + 5 < n && b[q + 5] == 58 && is_digit_at(b, q + 6)
        && is_digit_at(b, q + 7) && q + 8 < n && b[q + 8] == 46 && is_digit_at(b, q + 9)) {
        return None;
    }
    let h = ((b[q] - 48) as u64) * 10 + ((b[q + 1] - 48) as u64);
    let m = ((b[q + 3] - 48) as u64) * 10 + ((b[q + 4] - 48) as u64);
    let sec = ((b[q + 6] - 48) as u64) * 10 + ((b[q + 7] - 48) as u64);
    let e = digits_end_from(b, q + 9);
    if !all_digits_between(b, q + 9, e) {
        return None;
    }
    let f = six_place_value(b, q + 9, e);
    Some((h * 3600 + m * 60 + sec) * 1_000_000 + f)
}

/// Reads the length of the input from ffmpeg's report: the first
/// `Duration: HH:MM:SS.F` that reads, in microseconds. On a line whose first
/// match does not read (a digit outside ASCII), the rest of the line is
/// passed over.
pub fn parse_duration(output: &str) -> (r: Option<u64>)
    ensures
        r == first_duration(output.spec_bytes(), 0, false),
{
    let b = output.as_bytes();
    let dm: Vec<u8> = vec![68u8, 117, 114, 97, 116, 105, 111, 110, 58, 32];
    proof {
        assert(dm@ =~= duration_marker());
    }
    let mut skipping = false;
    let mut i: usize = 0;
    while i < b.len()
        invariant
            i <= b@.len(),
            b@ == output.spec_bytes(),
            dm@ == duration_marker(),
            first_duration(b@, 0, false) == first_duration(b@, i as int, skipping),
        decreases b@.len() - i,
    {
        if b[i] == 10 {
            skipping = false;
        } else if !skipping && duration_match_exec(b, i, &dm) {
            match duration_at_exec(b, i, &dm) {
                Some(v) => {
                    return Some(v);
                },
                None => {
                    skipping = true;
                },
            }
        }
        i = i + 1;
    }
    None
}

} // verus!
