//! Byte-level text helpers: ASCII classification, prefix tests, whitespace
//! trimming and decimal parsing.
//!
//! The progress stream and file names are handled as byte strings, so the
//! specifications here speak of `Seq<u8>`.

use vstd::prelude::*;

verus! {

/// ASCII decimal digit.
pub open spec fn is_digit(b: u8) -> bool {
    ('0' as u8) <= b <= ('9' as u8)
}

/// ASCII whitespace: space, tab, line feed, vertical tab, form feed,
/// carriage return.
pub open spec fn is_space(b: u8) -> bool {
    b == (' ' as u8) || b == 9 || b == 10 || b == 11 || b == 12 || b == 13
}

/// Every byte of `s` is an ASCII decimal digit.
pub open spec fn all_digits(s: Seq<u8>) -> bool {
    forall|i: int| 0 <= i < s.len() ==> is_digit(#[trigger] s[i])
}

/// The integer a digit string stands for, most significant digit first.
/// Meaningful only when `all_digits(s)` holds.
pub open spec fn dec_value(s: Seq<u8>) -> int
    decreases s.len(),
{
    if s.len() == 0 {
        0
    } else {
        dec_value(s.drop_last()) * 10 + (s.last() - ('0' as u8))
    }
}

/// What a non-empty, all-digit byte string parses to, when its value fits
/// in a `u32`; `None` on anything else.
pub open spec fn parses_to_u32(s: Seq<u8>) -> Option<u32> {
    if s.len() >= 1 && all_digits(s) && dec_value(s) <= u32::MAX {
        Some(dec_value(s) as u32)
    } else {
        None
    }
}

/// `s` begins with `p`.
pub open spec fn starts_with(s: Seq<u8>, p: Seq<u8>) -> bool {
    p.len() <= s.len() && s.subrange(0, p.len() as int) == p
}

/// `s` without its leading ASCII whitespace.
pub open spec fn trim_start(s: Seq<u8>) -> Seq<u8>
    decreases s.len(),
{
    if s.len() > 0 && is_space(s[0]) {
        trim_start(s.subrange(1, s.len() as int))
    } else {
        s
    }
}

/// `s` without its trailing ASCII whitespace.
pub open spec fn trim_end(s: Seq<u8>) -> Seq<u8>
    decreases s.len(),
{
    if s.len() > 0 && is_space(s.last()) {
        trim_end(s.drop_last())
    } else {
        s
    }
}

/// `s` without leading and trailing ASCII whitespace.
pub open spec fn trimmed(s: Seq<u8>) -> Seq<u8> {
    trim_end(trim_start(s))
}

/// One ASCII byte, lower-cased.
pub open spec fn lower(b: u8) -> u8 {
    if ('A' as u8) <= b && b <= ('Z' as u8) {
        (b + 32) as u8
    } else {
        b
    }
}

/// The bytes of `"frame="`, the progress key carrying the current frame.
pub open spec fn frame_prefix() -> Seq<u8> {
    seq!['f' as u8, 'r' as u8, 'a' as u8, 'm' as u8, 'e' as u8, '=' as u8]
}

/// The bytes of `"total_frames="`, the progress key carrying the total
/// frame count.
pub open spec fn total_frames_prefix() -> Seq<u8> {
    seq![
        't' as u8, 'o' as u8, 't' as u8, 'a' as u8, 'l' as u8, '_' as u8,
        'f' as u8, 'r' as u8, 'a' as u8, 'm' as u8, 'e' as u8, 's' as u8,
        '=' as u8,
    ]
}

/// The bytes of `"frame="` as a vector.
pub fn frame_prefix_vec() -> (r: Vec<u8>)
    ensures
        r@ == frame_prefix(),
{
    let v: Vec<u8> = vec!['f' as u8, 'r' as u8, 'a' as u8, 'm' as u8, 'e' as u8, '=' as u8];
    proof {
        assert(v@ =~= frame_prefix());
    }
    v
}

/// The bytes of `"total_frames="` as a vector.
pub fn total_frames_prefix_vec() -> (r: Vec<u8>)
    ensures
        r@ == total_frames_prefix(),
{
    let v: Vec<u8> = vec![
        't' as u8, 'o' as u8, 't' as u8, 'a' as u8, 'l' as u8, '_' as u8,
        'f' as u8, 'r' as u8, 'a' as u8, 'm' as u8, 'e' as u8, 's' as u8,
        '=' as u8,
    ];
    proof {
        assert(v@ =~= total_frames_prefix());
    }
    v
}

/// Decides whether `s` begins with the bytes of `p`.
pub fn slice_starts_with(s: &[u8], p: &Vec<u8>) -> (r: bool)
    ensures
        r == starts_with(s@, p@),
{
    if s.len() < p.len() {
        return false;
    }
    let mut i: usize = 0;
    while i < p.len()
        invariant
            i <= p@.len() <= s@.len(),
            forall|k: int| 0 <= k < i ==> s@[k] == p@[k],
        decreases p@.len() - i,
    {
        if s[i] != p[i] {
            proof {
                assert(!starts_with(s@, p@)) by {
                    if starts_with(s@, p@) {
                        assert(s@.subrange(0, p@.len() as int)[i as int] == p@[i as int]);
                    }
                }
            }
            return false;
        }
        i = i + 1;
    }
    proof {
        assert(s@.subrange(0, p@.len() as int) =~= p@);
    }
    true
}

/// Decides `is_space` on one byte.
pub fn is_space_byte(b: u8) -> (r: bool)
    ensures
        r == is_space(b),
{
    b == (' ' as u8) || b == 9 || b == 10 || b == 11 || b == 12 || b == 13
}

/// `trim_start` drops exactly the leading run of whitespace.
proof fn lemma_trim_start_at(s: Seq<u8>, j: int)
    requires
        0 <= j <= s.len(),
        forall|k: int| 0 <= k < j ==> is_space(#[trigger] s[k]),
        j == s.len() || !is_space(s[j]),
    ensures
        trim_start(s) == s.subrange(j, s.len() as int),
    decreases j,
{
    if j == 0 {
        assert(s.subrange(0, s.len() as int) =~= s);
    } else {
        let t = s.subrange(1, s.len() as int);
        assert(forall|k: int| 0 <= k < j - 1 ==> is_space(#[trigger] t[k]));
        lemma_trim_start_at(t, j - 1);
        assert(t.subrange(j - 1, t.len() as int) =~= s.subrange(j, s.len() as int));
    }
}

/// `trim_end` drops exactly the trailing run of whitespace.
proof fn lemma_trim_end_at(s: Seq<u8>, j: int)
    requires
        0 <= j <= s.len(),
        forall|k: int| j <= k < s.len() ==> is_space(#[trigger] s[k]),
        j == 0 || !is_space(s[j - 1]),
    ensures
        trim_end(s) == s.subrange(0, j),
    decreases s.len() - j,
{
    if j == s.len() {
        assert(s.subrange(0, j) =~= s);
    } else {
        let t = s.drop_last();
        assert(forall|k: int| j <= k < t.len() ==> is_space(#[trigger] t[k]));
        lemma_trim_end_at(t, j);
        assert(t.subrange(0, j) =~= s.subrange(0, j));
    }
}

/// Narrows `[lo, hi)` to the bounds of `s[lo..hi]` with its leading and
/// trailing ASCII whitespace removed.
pub fn trim_range(s: &[u8], lo: usize, hi: usize) -> (r: (usize, usize))
    requires
        lo <= hi <= s@.len(),
    ensures
        lo <= r.0 <= r.1 <= hi,
        s@.subrange(r.0 as int, r.1 as int) == trimmed(s@.subrange(lo as int, hi as int)),
{
    let ghost whole = s@.subrange(lo as int, hi as int);
    let mut a: usize = lo;
    while a < hi && is_space_byte(s[a])
        invariant
            lo <= a <= hi <= s@.len(),
            forall|k: int| lo <= k < a ==> is_space(#[trigger] s@[k]),
        decreases hi - a,
    {
        a = a + 1;
    }
    proof {
        assert(forall|k: int| 0 <= k < a - lo ==> is_space(#[trigger] whole[k]));
        lemma_trim_start_at(whole, a - lo);
    }
    let ghost started = whole.subrange(a - lo, whole.len() as int);
    let mut b: usize = hi;
    while b > a && is_space_byte(s[b - 1])
        invariant
            lo <= a <= b <= hi <= s@.len(),
            forall|k: int| b <= k < hi ==> is_space(#[trigger] s@[k]),
        decreases b - a,
    {
        b = b - 1;
    }
    proof {
        assert(forall|k: int| b - a <= k < started.len() ==> is_space(#[trigger] started[k]));
        lemma_trim_end_at(started, b - a);
        assert(started.subrange(0, b - a) =~= s@.subrange(a as int, b as int));
    }
    (a, b)
}

/// Once a prefix's value is already too large, no continuation of bytes
/// brings the value back down below it.
proof fn lemma_dec_value_stays_large(s: Seq<u8>, i: int)
    requires
        0 <= i <= s.len(),
        dec_value(s.subrange(0, i)) > u32::MAX,
    ensures
        dec_value(s) > u32::MAX,
    decreases s.len() - i,
{
    if i < s.len() {
        let t = s.subrange(0, i + 1);
        assert(t.drop_last() =~= s.subrange(0, i));
        assert(dec_value(t) == dec_value(s.subrange(0, i)) * 10 + (s[i] - ('0' as u8)));
        lemma_dec_value_stays_large(s, i + 1);
    } else {
        assert(s.subrange(0, i) =~= s);
    }
}

/// Parses `s[lo..hi]` as an unsigned decimal integer.  Returns the value
/// exactly when the range is non-empty, all digits, and fits in a `u32`.
pub fn parse_u32(s: &[u8], lo: usize, hi: usize) -> (r: Option<u32>)
    requires
        lo <= hi <= s@.len(),
    ensures
        r == parses_to_u32(s@.subrange(lo as int, hi as int)),
{
    let ghost whole = s@.subrange(lo as int, hi as int);
    if lo == hi {
        return None;
    }
    let mut acc: u64 = 0;
    let mut i: usize = lo;
    while i < hi
        invariant
            lo <= i <= hi <= s@.len(),
            whole == s@.subrange(lo as int, hi as int),
            all_digits(s@.subrange(lo as int, i as int)),
            acc == dec_value(s@.subrange(lo as int, i as int)),
            acc <= u32::MAX,
        decreases hi - i,
    {
        let ghost pre = s@.subrange(lo as int, i as int);
        let b = s[i];
        proof {
            assert(s@.subrange(lo as int, i as int + 1).drop_last() =~= pre);
            assert(s@.subrange(lo as int, i as int + 1).last() == s@[i as int]);
        }
        if !(('0' as u8) <= b && b <= ('9' as u8)) {
            proof {
                assert(whole[i - lo] == s@[i as int]);
                assert(!is_digit(whole[i - lo]));
            }
            return None;
        }
        let d: u64 = (b - ('0' as u8)) as u64;
        let next: u64 = acc * 10 + d;
        proof {
            assert(next == dec_value(s@.subrange(lo as int, i as int + 1)));
        }
        if next > u32::MAX as u64 {
            proof {
                assert(forall|j: int|
                    lo <= j < i + 1 ==> whole[j - lo] == #[trigger] s@[j]);
                assert(whole.subrange(0, i as int + 1 - lo) =~= s@.subrange(
                    lo as int,
                    i as int + 1,
                ));
                lemma_dec_value_stays_large(whole, i as int + 1 - lo);
            }
            return None;
        }
        acc = next;
        i = i + 1;
    }
    proof {
        assert(s@.subrange(lo as int, hi as int) =~= whole);
    }
    Some(acc as u32)
}

} // verus!
