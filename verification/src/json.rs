use vstd::prelude::*;
use vstd::slice::slice_index_get;

verus! {

// Byte classes of the JSON subset the protocol carries.
pub open spec fn is_ws(b: u8) -> bool {
    b == 32 || b == 9 || b == 10 || b == 13
}

pub open spec fn is_digit(b: u8) -> bool {
    48 <= b <= 57
}

/// Bytes that may continue an unquoted primitive: digits, letters, sign,
/// point, exponent marks.  Covers numbers, `true`, `false` and `null`.
pub open spec fn is_prim(b: u8) -> bool {
    is_digit(b) || (97 <= b <= 122) || (65 <= b <= 90) || b == 45 || b == 43 || b == 46
}

pub fn byte_at(buf: &[u8], i: usize) -> (r: u8)
    requires
        i < buf@.len(),
    ensures
        r == buf@[i as int],
{
    *slice_index_get(buf, i)
}

// ---------------------------------------------------------------------------
// Whitespace
// ---------------------------------------------------------------------------

/// First index at or after `i` that holds no whitespace.
pub open spec fn spec_skip_ws(s: Seq<u8>, i: int) -> int
    decreases s.len() - i when 0 <= i <= s.len()
{
    if i < s.len() && is_ws(s[i]) {
        spec_skip_ws(s, i + 1)
    } else {
        i
    }
}

pub proof fn lemma_skip_ws_bounds(s: Seq<u8>, i: int)
    requires
        0 <= i <= s.len(),
    ensures
        i <= spec_skip_ws(s, i) <= s.len(),
    decreases s.len() - i,
{
    if i < s.len() && is_ws(s[i]) {
        lemma_skip_ws_bounds(s, i + 1);
    }
}

pub fn skip_ws(buf: &[u8], i: usize) -> (r: usize)
    requires
        i <= buf@.len(),
    ensures
        r == spec_skip_ws(buf@, i as int),
        i <= r <= buf@.len(),
{
    let n = buf.len();
    let mut j = i;
    loop
        invariant
            i <= j <= n,
            n == buf@.len(),
            spec_skip_ws(buf@, i as int) == spec_skip_ws(buf@, j as int),
        ensures
            j == spec_skip_ws(buf@, i as int),
            i <= j <= n,
        decreases n - j,
    {
        if j >= n {
            break ;
        }
        let b = byte_at(buf, j);
        if !(b == 32 || b == 9 || b == 10 || b == 13) {
            break ;
        }
        j += 1;
    }
    j
}

// ---------------------------------------------------------------------------
// Strings
// ---------------------------------------------------------------------------

/// From just after an opening quote, the index just after the matching
/// closing quote; a backslash escapes the byte that follows it.
pub open spec fn spec_skip_string(s: Seq<u8>, i: int) -> Option<int>
    decreases s.len() - i when 0 <= i <= s.len()
{
    if i >= s.len() {
        None
    } else if s[i] == 34 {
        Some(i + 1)
    } else if s[i] == 92 {
        if i + 2 <= s.len() {
            spec_skip_string(s, i + 2)
        } else {
            None
        }
    } else {
        spec_skip_string(s, i + 1)
    }
}

pub proof fn lemma_skip_string_bounds(s: Seq<u8>, i: int)
    requires
        0 <= i <= s.len(),
    ensures
        match spec_skip_string(s, i) {
            Some(j) => i < j <= s.len(),
            None => true,
        },
    decreases s.len() - i,
{
    if i < s.len() {
        if s[i] == 92 {
            if i + 2 <= s.len() {
                lemma_skip_string_bounds(s, i + 2);
            }
        } else if s[i] != 34 {
            lemma_skip_string_bounds(s, i + 1);
        }
    }
}

/// Over a run free of quotes and backslashes that a quote closes, the skip
/// lands just past that quote.
pub proof fn lemma_skip_string_plain(s: Seq<u8>, i: int, j: int)
    requires
        0 <= i <= j < s.len(),
        forall|k: int| i <= k < j ==> s[k] != 34 && s[k] != 92,
        s[j] == 34,
    ensures
        spec_skip_string(s, i) == Some(j + 1),
    decreases j - i,
{
    if i < j {
        lemma_skip_string_plain(s, i + 1, j);
    }
}

pub fn skip_string(buf: &[u8], i: usize) -> (r: Option<usize>)
    requires
        i <= buf@.len(),
    ensures
        match r {
            Some(j) => spec_skip_string(buf@, i as int) == Some(j as int) && i < j <= buf@.len(),
            None => spec_skip_string(buf@, i as int) is None,
        },
{
    let n = buf.len();
    let mut j = i;
    loop
        invariant
            i <= j <= n,
            n == buf@.len(),
            spec_skip_string(buf@, i as int) == spec_skip_string(buf@, j as int),
        ensures
            j <= n,
            spec_skip_string(buf@, i as int) == spec_skip_string(buf@, j as int),
            j >= n || buf@[j as int] == 34,
        decreases n - j,
    {
        if j >= n {
            break ;
        }
        let b = byte_at(buf, j);
        if b == 34 {
            break ;
        }
        if b == 92 {
            if j < n - 1 {
                j += 2;
            } else {
                return None;
            }
        } else {
            j += 1;
        }
    }
    if j >= n {
        None
    } else {
        proof {
            lemma_skip_string_bounds(buf@, i as int);
        }
        Some(j + 1)
    }
}

// ---------------------------------------------------------------------------
// Composite values (objects and arrays)
// ---------------------------------------------------------------------------

/// From just after an opening bracket, scan to just after the bracket that
/// closes it, tracking nesting depth and string state byte by byte.
pub open spec fn spec_skip_composite(
    s: Seq<u8>,
    i: int,
    depth: nat,
    in_str: bool,
    esc: bool,
) -> Option<int>
    decreases s.len() - i when 0 <= i <= s.len()
{
    if i >= s.len() {
        None
    } else {
        let b = s[i];
        if in_str {
            if esc {
                spec_skip_composite(s, i + 1, depth, true, false)
            } else if b == 92 {
                spec_skip_composite(s, i + 1, depth, true, true)
            } else if b == 34 {
                spec_skip_composite(s, i + 1, depth, false, false)
            } else {
                spec_skip_composite(s, i + 1, depth, true, false)
            }
        } else if b == 123 || b == 91 {
            spec_skip_composite(s, i + 1, depth + 1, false, false)
        } else if b == 125 || b == 93 {
            if depth <= 1 {
                Some(i + 1)
            } else {
                spec_skip_composite(s, i + 1, (depth - 1) as nat, false, false)
            }
        } else if b == 34 {
            spec_skip_composite(s, i + 1, depth, true, false)
        } else {
            spec_skip_composite(s, i + 1, depth, false, false)
        }
    }
}

pub proof fn lemma_skip_composite_bounds(s: Seq<u8>, i: int, depth: nat, in_str: bool, esc: bool)
    requires
        0 <= i <= s.len(),
    ensures
        match spec_skip_composite(s, i, depth, in_str, esc) {
            Some(j) => i < j <= s.len(),
            None => true,
        },
    decreases s.len() - i,
{
    if i < s.len() {
        let b = s[i];
        if in_str {
            if esc {
                lemma_skip_composite_bounds(s, i + 1, depth, true, false);
            } else if b == 92 {
                lemma_skip_composite_bounds(s, i + 1, depth, true, true);
            } else if b == 34 {
                lemma_skip_composite_bounds(s, i + 1, depth, false, false);
            } else {
                lemma_skip_composite_bounds(s, i + 1, depth, true, false);
            }
        } else if b == 123 || b == 91 {
            lemma_skip_composite_bounds(s, i + 1, depth + 1, false, false);
        } else if b == 125 || b == 93 {
            if depth > 1 {
                lemma_skip_composite_bounds(s, i + 1, (depth - 1) as nat, false, false);
            }
        } else if b == 34 {
            lemma_skip_composite_bounds(s, i + 1, depth, true, false);
        } else {
            lemma_skip_composite_bounds(s, i + 1, depth, false, false);
        }
    }
}

pub fn skip_composite(buf: &[u8], i: usize) -> (r: Option<usize>)
    requires
        i <= buf@.len(),
        buf@.len() < usize::MAX,
    ensures
        match r {
            Some(j) => spec_skip_composite(buf@, i as int, 1, false, false) == Some(j as int) && i
                < j <= buf@.len(),
            None => spec_skip_composite(buf@, i as int, 1, false, false) is None,
        },
{
    let n = buf.len();
    let mut j = i;
    let mut depth: usize = 1;
    let mut in_str = false;
    let mut esc = false;
    loop
        invariant_except_break
            i <= j <= n,
            n == buf@.len(),
            n < usize::MAX,
            1 <= depth <= 1 + j,
            !in_str ==> !esc,
            spec_skip_composite(buf@, i as int, 1, false, false) == spec_skip_composite(
                buf@,
                j as int,
                depth as nat,
                in_str,
                esc,
            ),
        ensures
            j <= n + 1,
            spec_skip_composite(buf@, i as int, 1, false, false) == (if j > n {
                None::<int>
            } else {
                Some(j as int)
            }),
        decreases n - j,
    {
        if j >= n {
            j = n + 1;
            break ;
        }
        let b = byte_at(buf, j);
        if in_str {
            if esc {
                esc = false;
            } else if b == 92 {
                esc = true;
            } else if b == 34 {
                in_str = false;
            }
            j += 1;
        } else if b == 123 || b == 91 {
            depth += 1;
            j += 1;
        } else if b == 125 || b == 93 {
            if depth <= 1 {
                j += 1;
                break ;
            }
            depth -= 1;
            j += 1;
        } else if b == 34 {
            in_str = true;
            j += 1;
        } else {
            j += 1;
        }
    }
    if j > n {
        None
    } else {
        proof {
            lemma_skip_composite_bounds(buf@, i as int, 1, false, false);
        }
        Some(j)
    }
}

// ---------------------------------------------------------------------------
// Primitives and digits
// ---------------------------------------------------------------------------

/// First index at or after `i` whose byte cannot continue a primitive.
pub open spec fn spec_skip_prim(s: Seq<u8>, i: int) -> int
    decreases s.len() - i when 0 <= i <= s.len()
{
    if i < s.len() && is_prim(s[i]) {
        spec_skip_prim(s, i + 1)
    } else {
        i
    }
}

pub proof fn lemma_skip_prim_bounds(s: Seq<u8>, i: int)
    requires
        0 <= i <= s.len(),
    ensures
        i <= spec_skip_prim(s, i) <= s.len(),
    decreases s.len() - i,
{
    if i < s.len() && is_prim(s[i]) {
        lemma_skip_prim_bounds(s, i + 1);
    }
}

pub fn skip_prim(buf: &[u8], i: usize) -> (r: usize)
    requires
        i <= buf@.len(),
    ensures
        r == spec_skip_prim(buf@, i as int),
        i <= r <= buf@.len(),
{
    let n = buf.len();
    let mut j = i;
    loop
        invariant
            i <= j <= n,
            n == buf@.len(),
            spec_skip_prim(buf@, i as int) == spec_skip_prim(buf@, j as int),
        ensures
            j == spec_skip_prim(buf@, i as int),
            i <= j <= n,
        decreases n - j,
    {
        if j >= n {
            break ;
        }
        let b = byte_at(buf, j);
        if !(48 <= b && b <= 57 || 97 <= b && b <= 122 || 65 <= b && b <= 90 || b == 45 || b == 43
            || b == 46) {
            break ;
        }
        j += 1;
    }
    j
}

/// One JSON value of any shape, skipped without interpretation.
pub open spec fn spec_skip_value(s: Seq<u8>, i: int) -> Option<int>
    recommends
        0 <= i <= s.len(),
{
    if i >= s.len() {
        None
    } else if s[i] == 34 {
        spec_skip_string(s, i + 1)
    } else if s[i] == 123 || s[i] == 91 {
        spec_skip_composite(s, i + 1, 1, false, false)
    } else if is_prim(s[i]) {
        Some(spec_skip_prim(s, i + 1))
    } else {
        None
    }
}

pub proof fn lemma_skip_value_bounds(s: Seq<u8>, i: int)
    requires
        0 <= i <= s.len(),
    ensures
        match spec_skip_value(s, i) {
            Some(j) => i < j <= s.len(),
            None => true,
        },
{
    if i < s.len() {
        if s[i] == 34 {
            lemma_skip_string_bounds(s, i + 1);
        } else if s[i] == 123 || s[i] == 91 {
            lemma_skip_composite_bounds(s, i + 1, 1, false, false);
        } else if is_prim(s[i]) {
            lemma_skip_prim_bounds(s, i + 1);
        }
    }
}

pub fn skip_value(buf: &[u8], i: usize) -> (r: Option<usize>)
    requires
        i <= buf@.len(),
        buf@.len() < usize::MAX,
    ensures
        match r {
            Some(j) => spec_skip_value(buf@, i as int) == Some(j as int) && i < j <= buf@.len(),
            None => spec_skip_value(buf@, i as int) is None,
        },
{
    let n = buf.len();
    if i >= n {
        return None;
    }
    proof {
        lemma_skip_value_bounds(buf@, i as int);
    }
    let b = byte_at(buf, i);
    if b == 34 {
        skip_string(buf, i + 1)
    } else if b == 123 || b == 91 {
        skip_composite(buf, i + 1)
    } else if 48 <= b && b <= 57 || 97 <= b && b <= 122 || 65 <= b && b <= 90 || b == 45 || b == 43
        || b == 46 {
        Some(skip_prim(buf, i + 1))
    } else {
        None
    }
}

// ---------------------------------------------------------------------------
// Decimal numbers
// ---------------------------------------------------------------------------

/// First index at or after `i` that holds no decimal digit.
pub open spec fn spec_digits_end(s: Seq<u8>, i: int) -> int
    decreases s.len() - i when 0 <= i <= s.len()
{
    if i < s.len() && is_digit(s[i]) {
        spec_digits_end(s, i + 1)
    } else {
        i
    }
}

pub proof fn lemma_digits_end_bounds(s: Seq<u8>, i: int)
    requires
        0 <= i <= s.len(),
    ensures
        i <= spec_digits_end(s, i) <= s.len(),
    decreases s.len() - i,
{
    if i < s.len() && is_digit(s[i]) {
        lemma_digits_end_bounds(s, i + 1);
    }
}

/// Value of the digit run `s[i..j]`, most significant first.
pub open spec fn spec_digits_val(s: Seq<u8>, i: int, j: int) -> int
    decreases j - i when i <= j
{
    if i >= j {
        0
    } else {
        spec_digits_val(s, i, j - 1) * 10 + (s[j - 1] - 48)
    }
}

pub proof fn lemma_digits_val_nonneg(s: Seq<u8>, i: int, j: int)
    requires
        i <= j,
        forall|k: int| i <= k < j ==> is_digit(s[k]),
    ensures
        spec_digits_val(s, i, j) >= 0,
    decreases j - i,
{
    if i < j {
        lemma_digits_val_nonneg(s, i, j - 1);
    }
}

/// A decimal number: at least one digit, value of the whole run.
pub open spec fn spec_parse_number(s: Seq<u8>, i: int) -> Option<(int, int)>
    recommends
        0 <= i <= s.len(),
{
    let e = spec_digits_end(s, i);
    if e > i {
        Some((e, spec_digits_val(s, i, e)))
    } else {
        None
    }
}

pub proof fn lemma_digits_prefix(s: Seq<u8>, i: int, j: int)
    requires
        0 <= i <= j <= s.len(),
        forall|k: int| i <= k < j ==> is_digit(s[k]),
        j == s.len() || !is_digit(s[j]),
    ensures
        spec_digits_end(s, i) == j,
    decreases j - i,
{
    if i < j {
        lemma_digits_prefix(s, i + 1, j);
    }
}

/// Read a decimal run starting at `i`.  The value is exact up to
/// `0xffff_ffff` and saturates at `0x1_0000_0000` beyond it, which is enough
/// for every bounded field a caller extracts.
pub fn parse_number_at(buf: &[u8], i: usize) -> (r: Option<(usize, u64)>)
    requires
        i <= buf@.len(),
    ensures
        match spec_parse_number(buf@, i as int) {
            Some((e, v)) => r matches Some((re, rv)) && re == e && rv == (if v > 0x1_0000_0000 {
                0x1_0000_0000u64 as int
            } else {
                v
            }),
            None => r is None,
        },
{
    let n = buf.len();
    let mut j = i;
    let mut acc: u64 = 0;
    proof {
        lemma_digits_end_bounds(buf@, i as int);
    }
    loop
        invariant
            i <= j <= n,
            n == buf@.len(),
            spec_digits_end(buf@, i as int) == spec_digits_end(buf@, j as int),
            forall|k: int| i <= k < j ==> is_digit(buf@[k]),
            acc <= 0x1_0000_0000,
            acc as int == (if spec_digits_val(buf@, i as int, j as int) > 0x1_0000_0000 {
                0x1_0000_0000
            } else {
                spec_digits_val(buf@, i as int, j as int)
            }),
        ensures
            j == spec_digits_end(buf@, i as int),
            acc as int == (if spec_digits_val(buf@, i as int, j as int) > 0x1_0000_0000 {
                0x1_0000_0000
            } else {
                spec_digits_val(buf@, i as int, j as int)
            }),
        decreases n - j,
    {
        if j >= n {
            break ;
        }
        let b = byte_at(buf, j);
        if !(48 <= b && b <= 57) {
            break ;
        }
        proof {
            lemma_digits_val_nonneg(buf@, i as int, j as int);
        }
        let d = (b - 48) as u64;
        let t = acc * 10 + d;
        if t > 0x1_0000_0000 {
            acc = 0x1_0000_0000;
        } else {
            acc = t;
        }
        j += 1;
    }
    if j == i {
        None
    } else {
        Some((j, acc))
    }
}

// ---------------------------------------------------------------------------
// Decimal rendering
// ---------------------------------------------------------------------------

/// The shortest decimal digit run denoting `n`.
pub open spec fn dec_digits(n: int) -> Seq<u8>
    decreases n when n >= 0
{
    if n < 10 {
        seq![(48 + n) as u8]
    } else {
        dec_digits(n / 10) + seq![(48 + n % 10) as u8]
    }
}

pub proof fn lemma_dec_digits_are_digits(n: int)
    requires
        n >= 0,
    ensures
        dec_digits(n).len() >= 1,
        forall|k: int| 0 <= k < dec_digits(n).len() ==> is_digit(#[trigger] dec_digits(n)[k]),
    decreases n,
{
    if n < 10 {
        assert(dec_digits(n)[0] == (48 + n) as u8);
    } else {
        lemma_dec_digits_are_digits(n / 10);
        let dp = dec_digits(n / 10);
        let d = dec_digits(n);
        assert forall|k: int| 0 <= k < d.len() implies is_digit(#[trigger] d[k]) by {
            if k < dp.len() {
                assert(d[k] == dp[k]);
            } else {
                assert(d[k] == (48 + n % 10) as u8);
                lemma_mod_bound_ten(n);
            }
        }
    }
}

pub proof fn lemma_mod_bound_ten(n: int)
    requires
        n >= 0,
    ensures
        0 <= n % 10 < 10,
{
}

pub open spec fn pow10(k: nat) -> int
    decreases k,
{
    if k == 0 {
        1
    } else {
        10 * pow10((k - 1) as nat)
    }
}

pub proof fn lemma_dec_digits_len_pow(n: int, k: nat)
    requires
        0 <= n,
        k >= 1,
        n < pow10(k),
    ensures
        1 <= dec_digits(n).len() <= k,
    decreases n,
{
    if n >= 10 {
        assert(n == 10 * (n / 10) + n % 10) by {
            vstd::arithmetic::div_mod::lemma_fundamental_div_mod(n, 10);
        }
        assert(pow10(k) == 10 * pow10((k - 1) as nat));
        assert(n / 10 < pow10((k - 1) as nat));
        lemma_dec_digits_len_pow(n / 10, (k - 1) as nat);
    }
}

/// Ten digits always cover a 32-bit value and the sign bit's magnitude.
pub proof fn lemma_dec_digits_len(n: int)
    requires
        0 <= n <= 0x1_0000_0000,
    ensures
        1 <= dec_digits(n).len() <= 10,
{
    reveal_with_fuel(pow10, 11);
    assert(pow10(10) == 10_000_000_000);
    lemma_dec_digits_len_pow(n, 10);
}

/// A rendered digit run parses back to the value it denotes.
pub proof fn lemma_digits_val_of_rep(n: int, s: Seq<u8>, i: int, j: int)
    requires
        n >= 0,
        0 <= i <= j <= s.len(),
        j - i == dec_digits(n).len(),
        s.subrange(i, j) == dec_digits(n),
    ensures
        spec_digits_val(s, i, j) == n,
    decreases n,
{
    let d = dec_digits(n);
    if n < 10 {
        assert(s[i] == d[0]);
        assert(spec_digits_val(s, i, i) == 0);
    } else {
        let dp = dec_digits(n / 10);
        assert(s.subrange(i, j - 1) =~= dp) by {
            assert(forall|k: int|
                0 <= k < dp.len() ==> s.subrange(i, j)[k] == #[trigger] d[k]);
        }
        lemma_digits_val_of_rep(n / 10, s, i, j - 1);
        assert(s[j - 1] == d[d.len() - 1]);
        assert(d[d.len() - 1] == (48 + n % 10) as u8);
        assert(n == 10 * (n / 10) + n % 10) by {
            vstd::arithmetic::div_mod::lemma_fundamental_div_mod(n, 10);
        }
        lemma_mod_bound_ten(n);
    }
}

/// Render `x` in decimal onto the end of `out`.
pub fn push_dec_u64(out: &mut Vec<u8>, x: u64)
    ensures
        final(out)@ == old(out)@ + dec_digits(x as int),
{
    let mut tmp: Vec<u8> = Vec::new();
    let mut y = x;
    proof {
        assert(dec_digits(x as int) + tmp@.reverse() =~= dec_digits(x as int));
    }
    loop
        invariant_except_break
            y > 0 ==> dec_digits(x as int) == dec_digits(y as int) + tmp@.reverse(),
            y == 0 ==> tmp@.len() == 0 && x == 0,
        ensures
            dec_digits(x as int) == tmp@.reverse(),
        decreases y,
    {
        let d: u8 = (y % 10) as u8 + 48;
        let y2 = y / 10;
        let ghost t0 = tmp@;
        tmp.push(d);
        proof {
            assert(tmp@ == t0.push(d));
            assert(tmp@.reverse() =~= seq![d] + t0.reverse());
            assert(y == 10 * (y as int / 10) + y as int % 10) by {
                vstd::arithmetic::div_mod::lemma_fundamental_div_mod(y as int, 10);
            }
            if y2 == 0 {
                assert(y < 10);
                assert(dec_digits(y as int) == seq![d]);
                assert(dec_digits(x as int) =~= tmp@.reverse());
            } else {
                assert(dec_digits(y as int) == dec_digits(y2 as int) + seq![d]);
                assert(dec_digits(x as int) =~= dec_digits(y2 as int) + tmp@.reverse());
            }
        }
        y = y2;
        if y == 0 {
            break ;
        }
    }
    let m = tmp.len();
    let mut k: usize = 0;
    while k < m
        invariant
            m == tmp@.len(),
            k <= m,
            out@ == old(out)@ + tmp@.reverse().subrange(0, k as int),
        decreases m - k,
    {
        out.push(tmp[m - 1 - k]);
        assert(out@ =~= old(out)@ + tmp@.reverse().subrange(0, k + 1));
        k += 1;
    }
    assert(tmp@.reverse().subrange(0, m as int) =~= tmp@.reverse());
}

} // verus!
