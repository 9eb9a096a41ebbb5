//! Byte-level scanning over the raw file text: line boundaries, whitespace
//! trimming, and exact parsing of unsigned integers and fixed-point decimal
//! numbers. All values are modelled over `Seq<u8>` with index ranges, and
//! every executable scanner is proved equal to its specification function.

use vstd::prelude::*;

verus! {

/// Number of fixed-point units per whole unit: coordinates and box entries
/// are stored in millionths (micro-nanometers for `.gro` positions).
pub const MICRO: i64 = 1_000_000;

/// The bytes this decoder treats as blank: space, tab, and the ASCII
/// line/page control characters (`\n`, `\v`, `\f`, `\r`).
pub open spec fn is_space(b: u8) -> bool {
    b == 32 || b == 9 || b == 10 || b == 11 || b == 12 || b == 13
}

/// First index in `[pos, hi)` holding `target`, or `hi` if there is none.
pub open spec fn find_in(s: Seq<u8>, pos: int, hi: int, target: u8) -> int
    decreases hi - pos when pos <= hi
{
    if pos >= hi {
        hi
    } else if s[pos] == target {
        pos
    } else {
        find_in(s, pos + 1, hi, target)
    }
}

/// First index in `[pos, hi)` holding a non-blank byte, or `hi`.
pub open spec fn skip_spaces(s: Seq<u8>, pos: int, hi: int) -> int
    decreases hi - pos when pos <= hi
{
    if pos >= hi {
        hi
    } else if is_space(s[pos]) {
        skip_spaces(s, pos + 1, hi)
    } else {
        pos
    }
}

/// First index in `[pos, hi)` holding a blank byte, or `hi`.
pub open spec fn find_space(s: Seq<u8>, pos: int, hi: int) -> int
    decreases hi - pos when pos <= hi
{
    if pos >= hi {
        hi
    } else if is_space(s[pos]) {
        pos
    } else {
        find_space(s, pos + 1, hi)
    }
}

/// One past the last non-blank byte in `[lo, hi)`, scanning from the right;
/// `lo` if the whole range is blank.
pub open spec fn rskip_spaces(s: Seq<u8>, lo: int, hi: int) -> int
    decreases hi - lo when lo <= hi
{
    if hi <= lo {
        hi
    } else if is_space(s[hi - 1]) {
        rskip_spaces(s, lo, hi - 1)
    } else {
        hi
    }
}

pub proof fn lemma_find_in_bounds(s: Seq<u8>, pos: int, hi: int, target: u8)
    requires
        pos <= hi,
    ensures
        pos <= find_in(s, pos, hi, target) <= hi,
    decreases hi - pos,
{
    if pos < hi && s[pos] != target {
        lemma_find_in_bounds(s, pos + 1, hi, target);
    }
}

/// True when every byte of `[lo, hi)` is an ASCII digit.
pub open spec fn all_digits(s: Seq<u8>, lo: int, hi: int) -> bool {
    forall|i: int| lo <= i < hi ==> #[trigger] is_digit(s[i])
}

pub open spec fn is_digit(b: u8) -> bool {
    48 <= b <= 57
}

/// Value of the digit string `[lo, hi)` read in base ten. Meaningful only
/// under `all_digits`.
pub open spec fn digits_val(s: Seq<u8>, lo: int, hi: int) -> int
    decreases hi - lo when lo <= hi
{
    if hi <= lo {
        0
    } else {
        digits_val(s, lo, hi - 1) * 10 + (s[hi - 1] - 48)
    }
}

/// The value a trimmed, all-digit range denotes, or `None` when the range is
/// empty or holds a non-digit.
pub open spec fn parse_uint(s: Seq<u8>, lo: int, hi: int) -> Option<int> {
    if lo < hi && all_digits(s, lo, hi) {
        Some(digits_val(s, lo, hi))
    } else {
        None
    }
}

pub open spec fn pow10(e: nat) -> int
    decreases e
{
    if e == 0 {
        1
    } else {
        10 * pow10((e - 1) as nat)
    }
}

pub proof fn lemma_pow10_vals()
    ensures
        pow10(0) == 1,
        pow10(1) == 10,
        pow10(2) == 100,
        pow10(3) == 1000,
        pow10(4) == 10000,
        pow10(5) == 100000,
        pow10(6) == 1000000,
        pow10(12) == 1000000000000,
        pow10(13) == 10000000000000,
        pow10(19) == 10000000000000000000,
        pow10(20) == 100000000000000000000,
{
    reveal_with_fuel(pow10, 21);
}

pub proof fn lemma_pow10_pos(e: nat)
    ensures
        pow10(e) >= 1,
    decreases e,
{
    if e > 0 {
        lemma_pow10_pos((e - 1) as nat);
    }
}

pub proof fn lemma_pow10_increases(a: nat, b: nat)
    requires
        a <= b,
    ensures
        pow10(a) <= pow10(b),
        pow10(a) >= 1,
    decreases b,
{
    lemma_pow10_pos(a);
    if a < b {
        lemma_pow10_increases(a, (b - 1) as nat);
    }
}

/// A leading zero does not change the value of a digit string.
proof fn lemma_digits_leading_zero(s: Seq<u8>, lo: int, hi: int)
    requires
        lo < hi,
        s[lo] == 48,
    ensures
        digits_val(s, lo, hi) == digits_val(s, lo + 1, hi),
    decreases hi - lo,
{
    if hi > lo + 1 {
        lemma_digits_leading_zero(s, lo, hi - 1);
    } else {
        assert(digits_val(s, lo, lo) == 0);
        assert(digits_val(s, lo + 1, hi) == 0);
    }
}

/// A digit string of width `w` denotes a value below `pow10(w)`.
proof fn lemma_digits_upper(s: Seq<u8>, lo: int, hi: int)
    requires
        lo <= hi,
        all_digits(s, lo, hi),
    ensures
        0 <= digits_val(s, lo, hi) < pow10((hi - lo) as nat),
    decreases hi - lo,
{
    if hi > lo {
        lemma_digits_upper(s, lo, hi - 1);
        assert(is_digit(s[hi - 1]));
    }
}

/// A digit string of width `w` with a nonzero first digit denotes a value of
/// at least `pow10(w - 1)`.
proof fn lemma_digits_lower(s: Seq<u8>, lo: int, hi: int)
    requires
        lo < hi,
        all_digits(s, lo, hi),
        s[lo] != 48,
    ensures
        digits_val(s, lo, hi) >= pow10((hi - lo - 1) as nat),
    decreases hi - lo,
{
    assert(is_digit(s[lo]));
    if hi > lo + 1 {
        lemma_digits_lower(s, lo, hi - 1);
        lemma_pow10_increases(0, (hi - lo - 2) as nat);
        assert(is_digit(s[hi - 1]));
    } else {
        assert(digits_val(s, lo, lo) == 0);
    }
}

/// First index in `[pos, hi)` holding `target`, or `hi`.
#[verifier::loop_isolation(false)]
pub fn find_in_ex(s: &[u8], pos: usize, hi: usize, target: u8) -> (r: usize)
    requires
        pos <= hi <= s@.len(),
    ensures
        r as int == find_in(s@, pos as int, hi as int, target),
        pos <= r <= hi,
{
    let mut i: usize = pos;
    while i < hi && s[i] != target
        invariant
            pos <= i <= hi,
            find_in(s@, pos as int, hi as int, target) == find_in(s@, i as int, hi as int, target),
        decreases hi - i,
    {
        i = i + 1;
    }
    i
}

#[verifier::loop_isolation(false)]
fn is_space_ex(b: u8) -> (r: bool)
    ensures
        r == is_space(b),
{
    b == 32 || b == 9 || b == 10 || b == 11 || b == 12 || b == 13
}

#[verifier::loop_isolation(false)]
pub fn skip_spaces_ex(s: &[u8], pos: usize, hi: usize) -> (r: usize)
    requires
        pos <= hi <= s@.len(),
    ensures
        r as int == skip_spaces(s@, pos as int, hi as int),
        pos <= r <= hi,
{
    let mut i: usize = pos;
    while i < hi && is_space_ex(s[i])
        invariant
            pos <= i <= hi,
            skip_spaces(s@, pos as int, hi as int) == skip_spaces(s@, i as int, hi as int),
        decreases hi - i,
    {
        i = i + 1;
    }
    i
}

#[verifier::loop_isolation(false)]
pub fn find_space_ex(s: &[u8], pos: usize, hi: usize) -> (r: usize)
    requires
        pos <= hi <= s@.len(),
    ensures
        r as int == find_space(s@, pos as int, hi as int),
        pos <= r <= hi,
{
    let mut i: usize = pos;
    while i < hi && !is_space_ex(s[i])
        invariant
            pos <= i <= hi,
            find_space(s@, pos as int, hi as int) == find_space(s@, i as int, hi as int),
        decreases hi - i,
    {
        i = i + 1;
    }
    i
}

/// Trim the blank margin of `[lo, hi)`; returns the trimmed bounds.
#[verifier::loop_isolation(false)]
pub fn trim_ex(s: &[u8], lo: usize, hi: usize) -> (r: (usize, usize))
    requires
        lo <= hi <= s@.len(),
    ensures
        r.0 as int == skip_spaces(s@, lo as int, hi as int),
        r.1 as int == rskip_spaces(s@, r.0 as int, hi as int),
        lo <= r.0 <= r.1 <= hi,
{
    let a: usize = skip_spaces_ex(s, lo, hi);
    let mut e: usize = hi;
    while e > a && is_space_ex(s[e - 1])
        invariant
            a <= e <= hi,
            rskip_spaces(s@, a as int, hi as int) == rskip_spaces(s@, a as int, e as int),
        decreases e,
    {
        e = e - 1;
    }
    (a, e)
}

/// Parse the range `[lo, hi)` as an unsigned base-ten integer, accepting it
/// only when its value is at most `cap`. Exactly mirrors [`parse_uint`].
#[verifier::loop_isolation(false)]
pub fn parse_uint_ex(s: &[u8], lo: usize, hi: usize, cap: u128) -> (r: Option<u128>)
    requires
        lo <= hi <= s@.len(),
        (cap as int) < pow10(20),
    ensures
        ({
            let m = parse_uint(s@, lo as int, hi as int);
            match r {
                Some(u) => m == Some(u as int) && u <= cap,
                None => m is None || (m matches Some(v) && v > cap as int),
            }
        }),
{
    if lo >= hi {
        return None;
    }
    // Reject any non-digit byte.
    let mut i: usize = lo;
    while i < hi
        invariant
            lo <= i <= hi,
            all_digits(s@, lo as int, i as int),
        decreases hi - i,
    {
        let b: u8 = s[i];
        if b < 48 || b > 57 {
            proof {
                assert(!is_digit(s@[i as int]));
                assert(!all_digits(s@, lo as int, hi as int));
            }
            return None;
        }
        i = i + 1;
    }
    // Skip leading zeros; they do not change the value.
    let mut z: usize = lo;
    while z < hi && s[z] == 48
        invariant
            lo <= z <= hi,
            digits_val(s@, lo as int, hi as int) == digits_val(s@, z as int, hi as int),
        decreases hi - z,
    {
        proof {
            lemma_digits_leading_zero(s@, z as int, hi as int);
        }
        z = z + 1;
    }
    if hi - z > 20 {
        // At least 21 significant digits: the value is at least `pow10(20)`,
        // which already exceeds `cap`.
        proof {
            lemma_digits_lower(s@, z as int, hi as int);
            lemma_pow10_increases(20, (hi - z - 1) as nat);
        }
        return None;
    }
    let mut acc: u128 = 0;
    let mut j: usize = z;
    while j < hi
        invariant
            z <= j <= hi,
            hi - z <= 20,
            acc as int == digits_val(s@, z as int, j as int),
            (acc as int) < pow10((j - z) as nat),
        decreases hi - j,
    {
        let d: u8 = s[j];
        proof {
            assert(is_digit(s@[j as int]));
            lemma_pow10_increases((j - z) as nat, 19);
            lemma_pow10_vals();
        }
        acc = acc * 10 + ((d - 48) as u128);
        j = j + 1;
    }
    if acc <= cap {
        Some(acc)
    } else {
        None
    }
}

/// The exact fixed-point value denoted by the decimal text `[lo, hi)`, in
/// millionths: an optional sign, one or more integer digits, and optionally a
/// point followed by one to six fraction digits. Anything else is `None`.
pub open spec fn parse_dec_micro(s: Seq<u8>, lo: int, hi: int) -> Option<int> {
    if lo >= hi {
        None
    } else {
        let neg = s[lo] == 45;
        let p = if s[lo] == 45 || s[lo] == 43 {
            lo + 1
        } else {
            lo
        };
        let dot = find_in(s, p, hi, 46);
        if !(p < dot && all_digits(s, p, dot)) {
            None
        } else if dot == hi {
            let m = digits_val(s, p, dot) * 1000000;
            Some(if neg { -m } else { m })
        } else {
            let flo = dot + 1;
            let fl = hi - flo;
            if 1 <= fl && fl <= 6 && all_digits(s, flo, hi) {
                let m = digits_val(s, p, dot) * 1000000 + digits_val(s, flo, hi) * pow10((6 - fl) as nat);
                Some(if neg { -m } else { m })
            } else {
                None
            }
        }
    }
}

#[verifier::loop_isolation(false)]
fn pow10_small(e: usize) -> (r: u64)
    requires
        e <= 6,
    ensures
        r as int == pow10(e as nat),
{
    proof {
        lemma_pow10_vals();
    }
    if e == 0 {
        1
    } else if e == 1 {
        10
    } else if e == 2 {
        100
    } else if e == 3 {
        1000
    } else if e == 4 {
        10000
    } else if e == 5 {
        100000
    } else {
        1000000
    }
}

#[verifier::loop_isolation(false)]
fn digits_to_u64(s: &[u8], lo: usize, hi: usize) -> (r: u64)
    requires
        lo <= hi <= s@.len(),
        all_digits(s@, lo as int, hi as int),
        hi - lo <= 13,
    ensures
        r as int == digits_val(s@, lo as int, hi as int),
        (r as int) < pow10((hi - lo) as nat),
{
    proof {
        lemma_digits_upper(s@, lo as int, hi as int);
    }
    let mut acc: u64 = 0;
    let mut j: usize = lo;
    while j < hi
        invariant
            lo <= j <= hi,
            acc as int == digits_val(s@, lo as int, j as int),
            (acc as int) < pow10((j - lo) as nat),
        decreases hi - j,
    {
        let d: u8 = s[j];
        proof {
            assert(is_digit(s@[j as int]));
            lemma_pow10_increases((j - lo) as nat, 12);
            lemma_pow10_vals();
        }
        acc = acc * 10 + ((d - 48) as u64);
        j = j + 1;
    }
    acc
}

/// Parse the range `[lo, hi)` as a fixed-point decimal with six fraction
/// places, accepting it only when its magnitude is at most `max_abs`.
/// Exactly mirrors [`parse_dec_micro`].
#[verifier::loop_isolation(false)]
pub fn parse_fixed_ex(s: &[u8], lo: usize, hi: usize, max_abs: i64) -> (r: Option<i64>)
    requires
        lo <= hi <= s@.len(),
        max_abs >= 0,
    ensures
        ({
            let m = parse_dec_micro(s@, lo as int, hi as int);
            match r {
                Some(x) => m == Some(x as int) && -max_abs <= x <= max_abs,
                None => m is None || (m matches Some(v) && (v < -(max_abs as int) || v
                    > max_abs as int)),
            }
        }),
{
    if lo >= hi {
        return None;
    }
    let first: u8 = s[lo];
    let neg: bool = first == 45;
    let p: usize = if first == 45 || first == 43 {
        lo + 1
    } else {
        lo
    };
    let dot: usize = find_in_ex(s, p, hi, 46);
    if p >= dot {
        return None;
    }
    // Every integer-part byte must be a digit.
    let mut i: usize = p;
    while i < dot
        invariant
            p <= i <= dot,
            all_digits(s@, p as int, i as int),
        decreases dot - i,
    {
        let b: u8 = s[i];
        if b < 48 || b > 57 {
            proof {
                assert(!is_digit(s@[i as int]));
                assert(!all_digits(s@, p as int, dot as int));
            }
            return None;
        }
        i = i + 1;
    }
    // Skip leading zeros of the integer part.
    let mut z: usize = p;
    while z + 1 < dot && s[z] == 48
        invariant
            p <= z < dot,
            digits_val(s@, p as int, dot as int) == digits_val(s@, z as int, dot as int),
        decreases dot - z,
    {
        proof {
            lemma_digits_leading_zero(s@, z as int, dot as int);
        }
        z = z + 1;
    }
    if dot - z > 13 {
        // Fourteen or more significant integer digits put the value at or
        // above `pow10(19)` millionths, beyond any `i64` bound.
        proof {
            lemma_digits_lower(s@, z as int, dot as int);
            lemma_pow10_increases(13, (dot - z - 1) as nat);
            lemma_pow10_vals();
            assert(digits_val(s@, p as int, dot as int) * 1000000 >= 10000000000000000000);
            if (dot as int) < hi as int {
                let flo: int = dot + 1;
                let fl: int = hi - flo;
                if 1 <= fl <= 6 && all_digits(s@, flo, hi as int) {
                    lemma_digits_upper(s@, flo, hi as int);
                    lemma_pow10_pos((6 - fl) as nat);
                    assert(digits_val(s@, flo, hi as int) * pow10((6 - fl) as nat) >= 0)
                        by (nonlinear_arith)
                        requires
                            digits_val(s@, flo, hi as int) >= 0,
                            pow10((6 - fl) as nat) >= 1,
                    ;
                }
            }
        }
        return None;
    }
    let int_part: u64 = digits_to_u64(s, z, dot);
    proof {
        lemma_pow10_increases((dot - z) as nat, 13);
        lemma_pow10_vals();
    }
    let magnitude: u64;
    if dot == hi {
        magnitude = int_part * 1000000;
    } else {
        let flo: usize = dot + 1;
        if hi - flo < 1 || hi - flo > 6 {
            return None;
        }
        let mut k: usize = flo;
        while k < hi
            invariant
                flo <= k <= hi,
                all_digits(s@, flo as int, k as int),
            decreases hi - k,
        {
            let b: u8 = s[k];
            if b < 48 || b > 57 {
                proof {
                    assert(!is_digit(s@[k as int]));
                    assert(!all_digits(s@, flo as int, hi as int));
                }
                return None;
            }
            k = k + 1;
        }
        let frac: u64 = frac_to_u64(s, flo, hi);
        let scale: u64 = pow10_small(6 - (hi - flo));
        proof {
            lemma_pow10_increases((6 - (hi - flo)) as nat, 6);
            lemma_pow10_vals();
            lemma_frac_scaled_bound(s@, flo as int, hi as int);
        }
        magnitude = int_part * 1000000 + frac * scale;
    }
    if magnitude > max_abs as u64 {
        return None;
    }
    if neg {
        Some(-(magnitude as i64))
    } else {
        Some(magnitude as i64)
    }
}

/// The scaled fraction contributes less than one whole unit.
proof fn lemma_frac_scaled_bound(s: Seq<u8>, flo: int, hi: int)
    requires
        flo <= hi,
        all_digits(s, flo, hi),
        1 <= hi - flo <= 6,
    ensures
        digits_val(s, flo, hi) * pow10((6 - (hi - flo)) as nat) < 1000000,
        digits_val(s, flo, hi) >= 0,
        pow10((6 - (hi - flo)) as nat) >= 1,
{
    lemma_digits_upper(s, flo, hi);
    lemma_pow10_increases(0, (6 - (hi - flo)) as nat);
    lemma_pow10_vals();
    let w = (hi - flo) as nat;
    assert(digits_val(s, flo, hi) <= pow10(w) - 1);
    lemma_pow10_mul_split(w);
    assert((pow10(w) - 1) * pow10((6 - w) as nat) == pow10(w) * pow10((6 - w) as nat) - pow10(
        (6 - w) as nat,
    )) by (nonlinear_arith);
    assert(digits_val(s, flo, hi) * pow10((6 - w) as nat) <= (pow10(w) - 1) * pow10(
        (6 - w) as nat,
    )) by (nonlinear_arith)
        requires
            digits_val(s, flo, hi) <= pow10(w) - 1,
            pow10((6 - w) as nat) >= 1,
            digits_val(s, flo, hi) >= 0,
    ;
}

/// `pow10(w) * pow10(6 - w) == pow10(6)` for the fraction widths in use.
proof fn lemma_pow10_mul_split(w: nat)
    requires
        w <= 6,
    ensures
        pow10(w) * pow10((6 - w) as nat) == 1000000,
{
    lemma_pow10_vals();
    if w == 0 {
    } else if w == 1 {
    } else if w == 2 {
    } else if w == 3 {
    } else if w == 4 {
    } else if w == 5 {
    } else {
        assert(w == 6);
    }
}

#[verifier::loop_isolation(false)]
fn frac_to_u64(s: &[u8], lo: usize, hi: usize) -> (r: u64)
    requires
        lo <= hi <= s@.len(),
        all_digits(s@, lo as int, hi as int),
        hi - lo <= 6,
    ensures
        r as int == digits_val(s@, lo as int, hi as int),
        (r as int) < pow10((hi - lo) as nat),
{
    proof {
        lemma_digits_upper(s@, lo as int, hi as int);
    }
    let mut acc: u64 = 0;
    let mut j: usize = lo;
    while j < hi
        invariant
            lo <= j <= hi,
            acc as int == digits_val(s@, lo as int, j as int),
            (acc as int) < pow10((j - lo) as nat),
        decreases hi - j,
    {
        let d: u8 = s[j];
        proof {
            assert(is_digit(s@[j as int]));
            lemma_pow10_increases((j - lo) as nat, 5);
            lemma_pow10_vals();
        }
        acc = acc * 10 + ((d - 48) as u64);
        j = j + 1;
    }
    acc
}

} // verus!
