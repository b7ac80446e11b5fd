//! Numeric text: decimal integer parsing, the grammar of floating-point
//! literals, and rendering integers back to decimal text.
//!
//! Filter parameters that are fractional numbers are carried through this
//! crate as their (validated) decimal text, never as machine floats; the
//! grammar accepted here is the one `f32` parsing accepts, so a value is
//! admitted exactly when a numeric parse of it would have succeeded.

use vstd::prelude::*;

verus! {

/// `c` is an ASCII decimal digit.
pub open spec fn is_digit(c: char) -> bool {
    '0' as u32 <= c as u32 && c as u32 <= '9' as u32
}

/// Numeric value of a digit character.
pub open spec fn digit_val(c: char) -> nat {
    (c as u32 - '0' as u32) as nat
}

/// Every character of `s` is a decimal digit.
pub open spec fn all_digits(s: Seq<char>) -> bool {
    forall|i: int| 0 <= i < s.len() ==> is_digit(s[i])
}

/// Value of a digit string read in base 10.
pub open spec fn digits_val(s: Seq<char>) -> nat
    decreases s.len(),
{
    if s.len() == 0 {
        0
    } else {
        digits_val(s.drop_last()) * 10 + digit_val(s.last())
    }
}

/// Extending a digit string on the right never shrinks its value.
proof fn lemma_digits_val_take_monotone(s: Seq<char>, i: int)
    requires
        0 <= i <= s.len(),
    ensures
        digits_val(s.take(i)) <= digits_val(s),
    decreases s.len() - i,
{
    if i < s.len() {
        lemma_digits_val_take_monotone(s, i + 1);
        assert(s.take(i + 1).drop_last() =~= s.take(i));
        assert(digits_val(s.take(i + 1)) == digits_val(s.take(i)) * 10 + digit_val(
            s.take(i + 1).last(),
        ));
    } else {
        assert(s.take(i) =~= s);
    }
}

/// The digits of `s` after an optional leading sign character.
pub open spec fn strip_sign(s: Seq<char>) -> Seq<char> {
    if s.len() >= 1 && (s[0] == '+' || s[0] == '-') {
        s.drop_first()
    } else {
        s
    }
}

/// What `u32` parsing returns on `s`: an optional `+`, then at least one
/// digit, and a value that fits.
pub open spec fn spec_parse_u32(s: Seq<char>) -> Option<u32> {
    let ds = if s.len() >= 1 && s[0] == '+' {
        s.drop_first()
    } else {
        s
    };
    if ds.len() >= 1 && all_digits(ds) && digits_val(ds) <= u32::MAX {
        Some(digits_val(ds) as u32)
    } else {
        None
    }
}

/// What `i32` parsing returns on `s`: an optional sign, then at least one
/// digit, and a value in range.
pub open spec fn spec_parse_i32(s: Seq<char>) -> Option<i32> {
    let neg = s.len() >= 1 && s[0] == '-';
    let ds = strip_sign(s);
    if ds.len() >= 1 && all_digits(ds) {
        if neg && digits_val(ds) <= 0x8000_0000 {
            Some((-(digits_val(ds) as int)) as i32)
        } else if !neg && digits_val(ds) <= i32::MAX {
            Some(digits_val(ds) as i32)
        } else {
            None
        }
    } else {
        None
    }
}

/// The digit character for `d`.
pub open spec fn digit_char(d: nat) -> char {
    if d == 0 {
        '0'
    } else if d == 1 {
        '1'
    } else if d == 2 {
        '2'
    } else if d == 3 {
        '3'
    } else if d == 4 {
        '4'
    } else if d == 5 {
        '5'
    } else if d == 6 {
        '6'
    } else if d == 7 {
        '7'
    } else if d == 8 {
        '8'
    } else {
        '9'
    }
}

/// Decimal text of `n`: most significant digit first, no leading zeros
/// (except for `n == 0` itself).
pub open spec fn spec_dec_digits(n: nat) -> Seq<char>
    decreases n,
{
    if n < 10 {
        seq![digit_char(n)]
    } else {
        spec_dec_digits(n / 10).push(digit_char(n % 10))
    }
}

/// The one-character string for digit `d`.
fn digit_str(d: u64) -> (r: &'static str)
    requires
        d < 10,
    ensures
        r@ == seq![digit_char(d as nat)],
{
    proof {
        reveal_strlit("0");
        reveal_strlit("1");
        reveal_strlit("2");
        reveal_strlit("3");
        reveal_strlit("4");
        reveal_strlit("5");
        reveal_strlit("6");
        reveal_strlit("7");
        reveal_strlit("8");
        reveal_strlit("9");
    }
    let r = match d {
        0 => "0",
        1 => "1",
        2 => "2",
        3 => "3",
        4 => "4",
        5 => "5",
        6 => "6",
        7 => "7",
        8 => "8",
        _ => "9",
    };
    assert(r@ =~= seq![digit_char(d as nat)]);
    r
}

/// Decimal text of `n`, as `u64` formatting produces it.
pub fn u64_to_string(n: u64) -> (r: String)
    ensures
        r@ == spec_dec_digits(n as nat),
    decreases n,
{
    if n < 10 {
        String::from_str(digit_str(n))
    } else {
        let mut r = u64_to_string(n / 10);
        r.append(digit_str(n % 10));
        assert(r@ =~= spec_dec_digits(n as nat));
        r
    }
}

/// Decimal text of `n`, as `u32` formatting produces it.
pub fn u32_to_string(n: u32) -> (r: String)
    ensures
        r@ == spec_dec_digits(n as nat),
{
    u64_to_string(n as u64)
}

/// Position of the first non-digit at or after `i` (or the end of `s`).
pub open spec fn digits_end(s: Seq<char>, i: int) -> int
    decreases s.len() - i,
{
    if 0 <= i < s.len() && is_digit(s[i]) {
        digits_end(s, i + 1)
    } else {
        i
    }
}

/// From position `k` on, `s` is empty or a valid exponent suffix:
/// `e`/`E`, an optional sign, and at least one digit reaching the end.
pub open spec fn exp_ok_from(s: Seq<char>, k: int) -> bool {
    ||| k == s.len()
    ||| (0 <= k < s.len() && (s[k] == 'e' || s[k] == 'E') && {
        let m = if k + 1 < s.len() && (s[k + 1] == '+' || s[k + 1] == '-') {
            k + 2
        } else {
            k + 1
        };
        m < s.len() && digits_end(s, m) == s.len()
    })
}

/// From position `off` on, `s` is a decimal number: digits, optionally a
/// point with more digits, optionally an exponent; or a point-led fraction.
pub open spec fn is_decimal_from(s: Seq<char>, off: int) -> bool {
    let j1 = digits_end(s, off);
    if j1 == off {
        // no integer digits: must start with a point followed by digits
        s.len() - off >= 2 && s[off] == '.' && {
            let j2 = digits_end(s, off + 1);
            j2 > off + 1 && exp_ok_from(s, j2)
        }
    } else if j1 == s.len() {
        true
    } else if s[j1] == '.' {
        exp_ok_from(s, digits_end(s, j1 + 1))
    } else {
        exp_ok_from(s, j1)
    }
}

/// `c` equals the lower-case ASCII letter `l`, ignoring case.
pub open spec fn ci_is(c: char, l: char) -> bool {
    c == l || c as u32 + 32 == l as u32
}

/// From position `off` on, `s` reads `inf`, `infinity` or `nan`,
/// ignoring case.
pub open spec fn is_special_from(s: Seq<char>, off: int) -> bool {
    ||| (s.len() - off == 3 && ci_is(s[off], 'i') && ci_is(s[off + 1], 'n') && ci_is(
        s[off + 2],
        'f',
    ))
    ||| (s.len() - off == 8 && ci_is(s[off], 'i') && ci_is(s[off + 1], 'n') && ci_is(s[off + 2], 'f')
        && ci_is(s[off + 3], 'i') && ci_is(s[off + 4], 'n') && ci_is(s[off + 5], 'i') && ci_is(
        s[off + 6],
        't',
    ) && ci_is(s[off + 7], 'y'))
    ||| (s.len() - off == 3 && ci_is(s[off], 'n') && ci_is(s[off + 1], 'a') && ci_is(
        s[off + 2],
        'n',
    ))
}

/// `s` is a floating-point literal: an optional sign, then a decimal
/// number or one of the special words. This is the text a 32-bit float
/// parse accepts.
pub open spec fn is_numeric_text(s: Seq<char>) -> bool {
    let off: int = if s.len() >= 1 && (s[0] == '+' || s[0] == '-') {
        1
    } else {
        0
    };
    is_decimal_from(s, off) || is_special_from(s, off)
}

/// A single digit is numeric text.
pub proof fn lemma_digit_string_numeric(s: Seq<char>)
    requires
        s.len() == 1,
        is_digit(s[0]),
    ensures
        is_numeric_text(s),
{
    assert(digits_end(s, 1) == 1);
    assert(digits_end(s, 0) == 1);
}

/// Position of the first non-digit at or after `i`.
fn digits_end_exec(s: &str, i: usize, len: usize) -> (r: usize)
    requires
        len == s@.len(),
        i <= len,
    ensures
        r == digits_end(s@, i as int),
        i <= r <= len,
{
    let mut j = i;
    while j < len
        invariant
            len == s@.len(),
            i <= j <= len,
            digits_end(s@, i as int) == digits_end(s@, j as int),
        decreases len - j,
    {
        let c = s.get_char(j);
        if !((c as u32) >= ('0' as u32) && (c as u32) <= ('9' as u32)) {
            return j;
        }
        j += 1;
    }
    j
}

/// `c` equals the lower-case ASCII letter `l`, ignoring case.
fn ci_is_exec(c: char, l: char) -> (r: bool)
    ensures
        r == ci_is(c, l),
{
    c == l || (c as u32) + 32 == (l as u32)
}

/// Does `s` hold a floating-point literal? (See [`is_numeric_text`].)
pub fn check_numeric_text(s: &str) -> (r: bool)
    ensures
        r == is_numeric_text(s@),
{
    let len = s.unicode_len();
    let off: usize = if len >= 1 && {
        let c = s.get_char(0);
        c == '+' || c == '-'
    } {
        1
    } else {
        0
    };
    check_decimal_from(s, off, len) || check_special_from(s, off, len)
}

/// Does `s[k..]` read as an (optional) exponent suffix?
fn check_exp_from(s: &str, k: usize, len: usize) -> (r: bool)
    requires
        len == s@.len(),
        k <= len,
    ensures
        r == exp_ok_from(s@, k as int),
{
    if k == len {
        return true;
    }
    let c = s.get_char(k);
    if !(c == 'e' || c == 'E') {
        return false;
    }
    let m: usize = if k + 1 < len && {
        let d = s.get_char(k + 1);
        d == '+' || d == '-'
    } {
        k + 2
    } else {
        k + 1
    };
    m < len && digits_end_exec(s, m, len) == len
}

/// Does `s[off..]` read as a decimal number?
fn check_decimal_from(s: &str, off: usize, len: usize) -> (r: bool)
    requires
        len == s@.len(),
        off <= len,
    ensures
        r == is_decimal_from(s@, off as int),
{
    let j1 = digits_end_exec(s, off, len);
    if j1 == off {
        if len - off >= 2 && s.get_char(off) == '.' {
            let j2 = digits_end_exec(s, off + 1, len);
            j2 > off + 1 && check_exp_from(s, j2, len)
        } else {
            false
        }
    } else if j1 == len {
        true
    } else if s.get_char(j1) == '.' {
        let j2 = digits_end_exec(s, j1 + 1, len);
        check_exp_from(s, j2, len)
    } else {
        check_exp_from(s, j1, len)
    }
}

/// Does `s[off..]` read `inf`, `infinity` or `nan`, ignoring case?
fn check_special_from(s: &str, off: usize, len: usize) -> (r: bool)
    requires
        len == s@.len(),
        off <= len,
    ensures
        r == is_special_from(s@, off as int),
{
    if len - off == 3 {
        let a = s.get_char(off);
        let b = s.get_char(off + 1);
        let c = s.get_char(off + 2);
        (ci_is_exec(a, 'i') && ci_is_exec(b, 'n') && ci_is_exec(c, 'f')) || (ci_is_exec(a, 'n')
            && ci_is_exec(b, 'a') && ci_is_exec(c, 'n'))
    } else if len - off == 8 {
        ci_is_exec(s.get_char(off), 'i') && ci_is_exec(s.get_char(off + 1), 'n') && ci_is_exec(
            s.get_char(off + 2),
            'f',
        ) && ci_is_exec(s.get_char(off + 3), 'i') && ci_is_exec(s.get_char(off + 4), 'n')
            && ci_is_exec(s.get_char(off + 5), 'i') && ci_is_exec(s.get_char(off + 6), 't')
            && ci_is_exec(s.get_char(off + 7), 'y')
    } else {
        false
    }
}

/// Value of the digit run `s[from..]`, reading only digits, as computed by a
/// left-to-right accumulator capped against `u32::MAX`.
fn parse_digits_u32(s: &str, from: usize, len: usize) -> (r: Option<u32>)
    requires
        len == s@.len(),
        from <= len,
        all_digits(s@.subrange(from as int, len as int)),
    ensures
        (match r {
            Some(v) => digits_val(s@.subrange(from as int, len as int)) == v,
            None => digits_val(s@.subrange(from as int, len as int)) > u32::MAX,
        }),
{
    let ghost ds = s@.subrange(from as int, len as int);
    let mut acc: u64 = 0;
    let mut i: usize = from;
    while i < len
        invariant
            len == s@.len(),
            from <= i <= len,
            ds == s@.subrange(from as int, len as int),
            all_digits(ds),
            acc == digits_val(ds.take(i - from)),
            acc <= u32::MAX,
        decreases len - i,
    {
        let c = s.get_char(i);
        assert(ds[i - from] == s@[i as int]);
        let d: u64 = (c as u32) as u64 - ('0' as u32) as u64;
        let next: u64 = acc * 10 + d;
        assert(ds.take(i - from + 1).drop_last() =~= ds.take(i - from));
        assert(digits_val(ds.take(i - from + 1)) == acc * 10 + digit_val(ds[i - from]));
        if next > u32::MAX as u64 {
            proof {
                lemma_digits_val_take_monotone(ds, i - from + 1);
            }
            return None;
        }
        acc = next;
        i += 1;
    }
    assert(ds.take(len - from) =~= ds);
    Some(acc as u32)
}

/// Parse `s` as a `u32`, exactly as `str::parse::<u32>` would.
pub fn parse_u32(s: &str) -> (r: Option<u32>)
    ensures
        r == spec_parse_u32(s@),
{
    let len = s.unicode_len();
    let start: usize = if len >= 1 && s.get_char(0) == '+' {
        1
    } else {
        0
    };
    let ghost ds = if s@.len() >= 1 && s@[0] == '+' {
        s@.drop_first()
    } else {
        s@
    };
    assert(ds =~= s@.subrange(start as int, len as int));
    if start == len {
        return None;
    }
    // reject on the first non-digit
    let mut i: usize = start;
    while i < len
        invariant
            len == s@.len(),
            start <= i <= len,
            ds == s@.subrange(start as int, len as int),
            ds == (if s@.len() >= 1 && s@[0] == '+' {
                s@.drop_first()
            } else {
                s@
            }),
            forall|k: int| start <= k < i ==> is_digit(s@[k]),
        decreases len - i,
    {
        let c = s.get_char(i);
        if !((c as u32) >= ('0' as u32) && (c as u32) <= ('9' as u32)) {
            assert(!all_digits(ds)) by {
                assert(ds[i - start] == s@[i as int]);
            }
            return None;
        }
        i += 1;
    }
    assert(all_digits(ds)) by {
        assert(forall|k: int| 0 <= k < ds.len() ==> ds[k] == s@[k + start]);
    }
    parse_digits_u32(s, start, len)
}

/// Parse `s` as an `i32`, exactly as `str::parse::<i32>` would.
pub fn parse_i32(s: &str) -> (r: Option<i32>)
    ensures
        r == spec_parse_i32(s@),
{
    let len = s.unicode_len();
    let neg = len >= 1 && s.get_char(0) == '-';
    let start: usize = if len >= 1 && (s.get_char(0) == '+' || s.get_char(0) == '-') {
        1
    } else {
        0
    };
    let ghost ds = strip_sign(s@);
    assert(ds =~= s@.subrange(start as int, len as int));
    if start == len {
        return None;
    }
    let mut i: usize = start;
    while i < len
        invariant
            len == s@.len(),
            start <= i <= len,
            ds == s@.subrange(start as int, len as int),
            ds == strip_sign(s@),
            neg == (s@.len() >= 1 && s@[0] == '-'),
            forall|k: int| start <= k < i ==> is_digit(s@[k]),
        decreases len - i,
    {
        let c = s.get_char(i);
        if !((c as u32) >= ('0' as u32) && (c as u32) <= ('9' as u32)) {
            assert(!all_digits(ds)) by {
                assert(ds[i - start] == s@[i as int]);
            }
            return None;
        }
        i += 1;
    }
    assert(all_digits(ds)) by {
        assert(forall|k: int| 0 <= k < ds.len() ==> ds[k] == s@[k + start]);
    }
    let v = parse_digits_u32(s, start, len);
    match v {
        None => {
            assert(digits_val(ds) > u32::MAX);
            None
        },
        Some(v) => {
            assert(digits_val(ds) == v);
            if neg {
                if v <= 0x8000_0000u32 {
                    let r: i32 = if v == 0x8000_0000u32 {
                        i32::MIN
                    } else {
                        -(v as i32)
                    };
                    assert(r as int == -(digits_val(ds) as int));
                    Some(r)
                } else {
                    None
                }
            } else {
                if v <= i32::MAX as u32 {
                    Some(v as i32)
                } else {
                    None
                }
            }
        },
    }
}

} // verus!
