//! Numeric literal parsing and bit-width classification.
//!
//! A literal token is optionally surrounded by whitespace, optionally
//! carries a leading `-` sign (never combined with a radix prefix: negative
//! literals are always decimal), optionally carries a radix prefix
//! (`0x`/`0X`, `0b`/`0B`, `0o`/`0O`, checked case-insensitively), and may
//! use `_` as a digit-group separator anywhere in the digit string.
//! The digit string decodes to an unsigned 64-bit magnitude; the sign is
//! tracked separately, not via two's complement.

use vstd::prelude::*;

verus! {

/// Largest magnitude a signed constant may carry: `2^63`.
pub const SIGNED_MAGNITUDE_CAP: u64 = 0x8000_0000_0000_0000;

/// Why a literal token was rejected.
#[derive(Debug, Clone, Copy, PartialEq, Eq, Structural)]
pub enum ParseError {
    /// After removing sign, radix prefix and separators, no digit is left.
    EmptyDigits,
    /// A character in the digit string is not a digit of the chosen radix.
    InvalidDigit,
    /// The digit string decodes to a value above `u64::MAX`.
    TooLarge,
    /// The magnitude cannot be represented under the requested signedness.
    OutOfRange,
}

/// The whitespace characters stripped from the ends of a literal token.
pub open spec fn is_space_char(c: char) -> bool {
    c == ' ' || c == '\t' || c == '\n' || c == '\r' || c == '\x0c'
}

/// Numeric value of a digit character, or 16 for anything that is not a
/// digit in any supported radix. A character is a valid digit for `radix`
/// exactly when `digit_value(c) < radix`.
pub open spec fn digit_value(c: char) -> int {
    let u = c as int;
    if 48 <= u && u <= 57 {
        u - 48
    } else if 97 <= u && u <= 102 {
        u - 87
    } else if 65 <= u && u <= 70 {
        u - 55
    } else {
        16
    }
}

pub open spec fn trim_start_spec(s: Seq<char>) -> Seq<char>
    decreases s.len(),
{
    if s.len() > 0 && is_space_char(s.first()) {
        trim_start_spec(s.drop_first())
    } else {
        s
    }
}

pub open spec fn trim_end_spec(s: Seq<char>) -> Seq<char>
    decreases s.len(),
{
    if s.len() > 0 && is_space_char(s.last()) {
        trim_end_spec(s.drop_last())
    } else {
        s
    }
}

/// Leading and trailing whitespace removed.
pub open spec fn trim_spec(s: Seq<char>) -> Seq<char> {
    trim_end_spec(trim_start_spec(s))
}

/// Every character is a separator or a digit of `radix`, and at least one
/// digit is present.
pub open spec fn digits_ok(s: Seq<char>, radix: int) -> bool {
    &&& exists|i: int| 0 <= i < s.len() && s[i] != '_'
    &&& forall|i: int| 0 <= i < s.len() ==> s[i] == '_' || digit_value(s[i]) < radix
}

/// Value of a digit string under `radix`, with `_` separators skipped.
pub open spec fn digits_val(s: Seq<char>, radix: int) -> int
    decreases s.len(),
{
    if s.len() == 0 {
        0
    } else if s.last() == '_' {
        digits_val(s.drop_last(), radix)
    } else {
        digits_val(s.drop_last(), radix) * radix + digit_value(s.last())
    }
}

/// The digit string with every `_` separator removed.
pub open spec fn strip_seps(s: Seq<char>) -> Seq<char>
    decreases s.len(),
{
    if s.len() == 0 {
        s
    } else if s.last() == '_' {
        strip_seps(s.drop_last())
    } else {
        strip_seps(s.drop_last()).push(s.last())
    }
}

/// A `-` at the head of the trimmed token marks the literal negative.
pub open spec fn lit_signed(s: Seq<char>) -> bool {
    trim_spec(s).len() > 0 && trim_spec(s)[0] == '-'
}

/// The token after the sign: the sign character and any whitespace that
/// follows it are consumed; an unsigned token is left whole.
pub open spec fn lit_after_sign(s: Seq<char>) -> Seq<char> {
    if lit_signed(s) {
        trim_start_spec(trim_spec(s).drop_first())
    } else {
        trim_spec(s)
    }
}

/// Does the (unsigned) token body start with a radix prefix?
pub open spec fn has_radix_prefix(b: Seq<char>) -> bool {
    b.len() >= 2 && b[0] == '0' && (b[1] == 'x' || b[1] == 'X' || b[1] == 'b' || b[1] == 'B'
        || b[1] == 'o' || b[1] == 'O')
}

/// The base selected by a radix prefix.
pub open spec fn prefix_radix(b: Seq<char>) -> int {
    if b[1] == 'x' || b[1] == 'X' {
        16
    } else if b[1] == 'b' || b[1] == 'B' {
        2
    } else {
        8
    }
}

/// The base of the literal: a prefix is honoured only on unsigned tokens;
/// everything else is decimal.
pub open spec fn lit_radix(s: Seq<char>) -> int {
    if !lit_signed(s) && has_radix_prefix(lit_after_sign(s)) {
        prefix_radix(lit_after_sign(s))
    } else {
        10
    }
}

/// The digit string of the literal: the token body with the radix prefix
/// removed. Separators are still present; `digits_val` skips them.
pub open spec fn lit_digits(s: Seq<char>) -> Seq<char> {
    let b = lit_after_sign(s);
    if !lit_signed(s) && has_radix_prefix(b) {
        b.skip(2)
    } else {
        b
    }
}

/// What parsing a literal token yields: a magnitude and a sign flag, or
/// the first applicable error among: no digits at all, a character that is
/// no digit of the chosen radix, a value above `u64::MAX`.
pub open spec fn lit_result(s: Seq<char>) -> Result<(u64, bool), ParseError> {
    let d = lit_digits(s);
    let radix = lit_radix(s);
    if !(exists|i: int| 0 <= i < d.len() && d[i] != '_') {
        Err(ParseError::EmptyDigits)
    } else if !(forall|i: int| 0 <= i < d.len() ==> d[i] == '_' || digit_value(d[i]) < radix) {
        Err(ParseError::InvalidDigit)
    } else if digits_val(d, radix) > u64::MAX {
        Err(ParseError::TooLarge)
    } else {
        Ok((digits_val(d, radix) as u64, lit_signed(s)))
    }
}

/// Largest magnitude representable at width `w` (one of 8, 32, 64) under
/// the given signedness: `2^w - 1` unsigned, `2^(w-1)` signed.
pub open spec fn width_cap(signed: bool, w: u32) -> int {
    if signed {
        if w == 8 {
            0x80
        } else if w == 32 {
            0x8000_0000
        } else {
            0x8000_0000_0000_0000
        }
    } else {
        if w == 8 {
            0xFF
        } else if w == 32 {
            0xFFFF_FFFF
        } else {
            0xFFFF_FFFF_FFFF_FFFF
        }
    }
}

/// Can the magnitude be represented at all under the given signedness?
pub open spec fn classifiable(signed: bool, m: int) -> bool {
    0 <= m <= width_cap(signed, 64)
}

/// The smallest width among {8, 32, 64} whose cap reaches the magnitude.
/// 16 is deliberately never produced: values that would fit in 16 bits are
/// promoted to 32.
pub open spec fn spec_classify(signed: bool, m: int) -> u32 {
    if m <= width_cap(signed, 8) {
        8
    } else if m <= width_cap(signed, 32) {
        32
    } else {
        64
    }
}

/// Classifier minimality: the produced width is one of {8, 32, 64}, its
/// cap reaches the magnitude, and no smaller width of the three does.
pub proof fn lemma_classify_minimal(signed: bool, m: int)
    requires
        classifiable(signed, m),
    ensures
        spec_classify(signed, m) == 8 || spec_classify(signed, m) == 32 || spec_classify(
            signed,
            m,
        ) == 64,
        m <= width_cap(signed, spec_classify(signed, m)),
        forall|w: u32|
            (w == 8 || w == 32 || w == 64) && m <= width_cap(signed, w) ==> spec_classify(
                signed,
                m,
            ) <= w,
{
}

/// `trim_start_spec` drops exactly the leading run of whitespace.
proof fn lemma_trim_start_is_subrange(s: Seq<char>, k: int)
    requires
        0 <= k <= s.len(),
        forall|i: int| 0 <= i < k ==> is_space_char(s[i]),
        k < s.len() ==> !is_space_char(s[k]),
    ensures
        trim_start_spec(s) == s.subrange(k, s.len() as int),
    decreases k,
{
    if k == 0 {
        assert(s.subrange(0, s.len() as int) =~= s);
    } else {
        let s2 = s.drop_first();
        assert(trim_start_spec(s) == trim_start_spec(s2));
        lemma_trim_start_is_subrange(s2, k - 1);
        assert(s2.subrange(k - 1, s2.len() as int) =~= s.subrange(k, s.len() as int));
    }
}

/// `trim_end_spec` drops exactly the trailing run of whitespace.
proof fn lemma_trim_end_is_subrange(s: Seq<char>, h: int)
    requires
        0 <= h <= s.len(),
        forall|i: int| h <= i < s.len() ==> is_space_char(s[i]),
        h > 0 ==> !is_space_char(s[h - 1]),
    ensures
        trim_end_spec(s) == s.subrange(0, h),
    decreases s.len(),
{
    if h == s.len() {
        assert(s.subrange(0, h) =~= s);
    } else {
        let s2 = s.drop_last();
        assert(trim_end_spec(s) == trim_end_spec(s2));
        lemma_trim_end_is_subrange(s2, h);
        assert(s2.subrange(0, h) =~= s.subrange(0, h));
    }
}

/// A digit string's value is never negative.
proof fn lemma_digits_val_nonneg(s: Seq<char>, radix: int)
    requires
        radix >= 1,
    ensures
        digits_val(s, radix) >= 0,
    decreases s.len(),
{
    if s.len() > 0 {
        lemma_digits_val_nonneg(s.drop_last(), radix);
        if s.last() != '_' {
            let v = digits_val(s.drop_last(), radix);
            assert(v * radix >= 0) by (nonlinear_arith)
                requires
                    v >= 0,
                    radix >= 1,
            ;
        }
    }
}

/// Appending a character never lowers a digit string's value.
proof fn lemma_digits_val_push(s: Seq<char>, c: char, radix: int)
    requires
        radix >= 1,
    ensures
        digits_val(s.push(c), radix) >= digits_val(s, radix),
{
    assert(s.push(c).drop_last() =~= s);
    assert(s.push(c).last() == c);
    lemma_digits_val_nonneg(s, radix);
    if c != '_' {
        let v = digits_val(s, radix);
        assert(v * radix + digit_value(c) >= v) by (nonlinear_arith)
            requires
                v >= 0,
                radix >= 1,
                digit_value(c) >= 0,
        ;
    }
}

/// A prefix of a digit string never exceeds the whole string's value.
proof fn lemma_digits_val_prefix_mono(s: Seq<char>, radix: int, j: int)
    requires
        radix >= 1,
        0 <= j <= s.len(),
    ensures
        digits_val(s.subrange(0, j), radix) <= digits_val(s, radix),
    decreases s.len() - j,
{
    if j < s.len() {
        assert(s.subrange(0, j + 1) =~= s.subrange(0, j).push(s[j]));
        lemma_digits_val_push(s.subrange(0, j), s[j], radix);
        lemma_digits_val_prefix_mono(s, radix, j + 1);
    } else {
        assert(s.subrange(0, j) =~= s);
    }
}

/// An accepted magnitude is exact: the machine word returned for an
/// accepted literal holds the digit string's mathematical value itself —
/// a value that does not fit 64 bits is rejected, never wrapped or
/// truncated to fit.
pub proof fn lemma_magnitude_exact(s: Seq<char>)
    ensures
        match lit_result(s) {
            Ok((m, sg)) => m == digits_val(lit_digits(s), lit_radix(s)),
            Err(_) => true,
        },
{
    if lit_result(s) is Ok {
        lemma_digits_val_nonneg(lit_digits(s), lit_radix(s));
    }
}

/// Separators never change a value: a digit string is worth exactly as
/// much as the same string with every `_` removed.
pub proof fn lemma_underscores_removed(s: Seq<char>, radix: int)
    ensures
        digits_val(s, radix) == digits_val(strip_seps(s), radix),
    decreases s.len(),
{
    if s.len() > 0 {
        lemma_underscores_removed(s.drop_last(), radix);
        if s.last() != '_' {
            let f = strip_seps(s.drop_last()).push(s.last());
            assert(f.drop_last() =~= strip_seps(s.drop_last()));
            assert(f.last() == s.last());
        }
    }
}

/// Exec mirror of `is_space_char`.
pub fn is_space(c: char) -> (b: bool)
    ensures
        b == is_space_char(c),
{
    c == ' ' || c == '\t' || c == '\n' || c == '\r' || c == '\x0c'
}

/// Exec mirror of `digit_value`.
pub fn digit_val(c: char) -> (d: u32)
    ensures
        d as int == digit_value(c),
{
    let u = c as u32;
    if 48 <= u && u <= 57 {
        u - 48
    } else if 97 <= u && u <= 102 {
        u - 87
    } else if 65 <= u && u <= 70 {
        u - 55
    } else {
        16
    }
}

/// Exec mirror of `spec_classify`.
pub fn classify_width(signed: bool, m: u64) -> (w: u32)
    requires
        classifiable(signed, m as int),
    ensures
        w == spec_classify(signed, m as int),
{
    if !signed {
        if m <= 0xFF {
            8
        } else if m <= 0xFFFF_FFFF {
            32
        } else {
            64
        }
    } else {
        if m <= 0x80 {
            8
        } else if m <= 0x8000_0000 {
            32
        } else {
            64
        }
    }
}

/// Character-wise equality of two string slices.
pub fn str_eq(a: &str, b: &str) -> (r: bool)
    ensures
        r == (a@ == b@),
{
    let alen = a.unicode_len();
    let blen = b.unicode_len();
    if alen != blen {
        return false;
    }
    let mut i: usize = 0;
    while i < alen
        invariant
            0 <= i <= alen,
            alen == a@.len(),
            alen == b@.len(),
            forall|j: int| 0 <= j < i ==> a@[j] == b@[j],
        decreases alen - i,
    {
        if a.get_char(i) != b.get_char(i) {
            return false;
        }
        i += 1;
    }
    proof {
        assert(a@ =~= b@);
    }
    true
}

/// A fresh copy of the token with surrounding whitespace removed.
pub fn trim_str(s: &str) -> (t: String)
    ensures
        t@ == trim_spec(s@),
{
    let n = s.unicode_len();
    let mut lo: usize = 0;
    while lo < n && is_space(s.get_char(lo))
        invariant
            0 <= lo <= n,
            n == s@.len(),
            forall|i: int| 0 <= i < lo ==> is_space_char(s@[i]),
        decreases n - lo,
    {
        lo += 1;
    }
    let mut hi: usize = n;
    while hi > lo && is_space(s.get_char(hi - 1))
        invariant
            lo <= hi <= n,
            n == s@.len(),
            forall|i: int| hi <= i < n ==> is_space_char(s@[i]),
        decreases hi,
    {
        hi -= 1;
    }
    proof {
        lemma_trim_start_is_subrange(s@, lo as int);
        let t1 = s@.subrange(lo as int, n as int);
        lemma_trim_end_is_subrange(t1, hi - lo);
        assert(t1.subrange(0, hi - lo) =~= s@.subrange(lo as int, hi as int));
    }
    let part = s.substring_char(lo, hi);
    part.to_owned()
}

/// Parses a literal token into an unsigned 64-bit magnitude and a sign
/// flag, exactly as `lit_result` states. When several defects are present
/// at once, a missing digit string is reported first, then a digit invalid
/// for the chosen radix, then overflow beyond `u64::MAX`.
#[verifier::rlimit(100)]
pub fn parse_literal(s: &str) -> (r: Result<(u64, bool), ParseError>)
    ensures
        r == lit_result(s@),
{
    let n = s.unicode_len();

    // Leading whitespace.
    let mut lo: usize = 0;
    while lo < n && is_space(s.get_char(lo))
        invariant
            0 <= lo <= n,
            n == s@.len(),
            forall|i: int| 0 <= i < lo ==> is_space_char(s@[i]),
        decreases n - lo,
    {
        lo += 1;
    }

    // Trailing whitespace.
    let mut hi: usize = n;
    while hi > lo && is_space(s.get_char(hi - 1))
        invariant
            lo <= hi <= n,
            n == s@.len(),
            forall|i: int| hi <= i < n ==> is_space_char(s@[i]),
        decreases hi,
    {
        hi -= 1;
    }

    proof {
        lemma_trim_start_is_subrange(s@, lo as int);
        let t1 = s@.subrange(lo as int, n as int);
        lemma_trim_end_is_subrange(t1, hi - lo);
        assert(t1.subrange(0, hi - lo) =~= s@.subrange(lo as int, hi as int));
        assert(trim_spec(s@) == s@.subrange(lo as int, hi as int));
    }

    // Sign, with any whitespace after it.
    let mut signed = false;
    let mut dlo = lo;
    if lo < hi && s.get_char(lo) == '-' {
        signed = true;
        dlo = lo + 1;
        while dlo < hi && is_space(s.get_char(dlo))
            invariant
                lo + 1 <= dlo <= hi,
                hi <= n,
                n == s@.len(),
                forall|i: int| lo + 1 <= i < dlo ==> is_space_char(s@[i]),
            decreases hi - dlo,
        {
            dlo += 1;
        }
        proof {
            let t = trim_spec(s@);
            let s2 = t.drop_first();
            assert(s2 =~= s@.subrange(lo + 1, hi as int));
            lemma_trim_start_is_subrange(s2, dlo - (lo + 1));
            assert(s2.subrange(dlo - (lo + 1), s2.len() as int) =~= s@.subrange(
                dlo as int,
                hi as int,
            ));
        }
    }
    assert(signed == lit_signed(s@));
    assert(lit_after_sign(s@) == s@.subrange(dlo as int, hi as int));

    // Radix prefix (unsigned tokens only).
    let mut radix: u32 = 10;
    let mut plo = dlo;
    if !signed && hi - dlo >= 2 {
        let c0 = s.get_char(dlo);
        let c1 = s.get_char(dlo + 1);
        if c0 == '0' {
            if c1 == 'x' || c1 == 'X' {
                radix = 16;
                plo = dlo + 2;
            } else if c1 == 'b' || c1 == 'B' {
                radix = 2;
                plo = dlo + 2;
            } else if c1 == 'o' || c1 == 'O' {
                radix = 8;
                plo = dlo + 2;
            }
        }
    }
    proof {
        let b = lit_after_sign(s@);
        if !signed && has_radix_prefix(b) {
            assert(b.skip(2) =~= s@.subrange(dlo + 2, hi as int));
        }
    }
    assert(radix as int == lit_radix(s@));
    assert(lit_digits(s@) == s@.subrange(plo as int, hi as int));

    let ghost d = lit_digits(s@);
    let dlen = hi - plo;

    // First pass: every character must be a separator or a digit of the
    // radix, and at least one digit must be present.
    let mut seen = false;
    let mut j: usize = 0;
    while j < dlen
        invariant
            0 <= j <= dlen,
            plo + dlen == hi,
            hi <= n,
            n == s@.len(),
            d == s@.subrange(plo as int, hi as int),
            d.len() == dlen,
            2 <= radix <= 16,
            radix as int == lit_radix(s@),
            d == lit_digits(s@),
            signed == lit_signed(s@),
            seen == exists|i: int| 0 <= i < j && d[i] != '_',
            forall|i: int| 0 <= i < j ==> d[i] == '_' || digit_value(d[i]) < radix,
        decreases dlen - j,
    {
        let c = s.get_char(plo + j);
        assert(c == d[j as int]);
        if c != '_' {
            if digit_val(c) >= radix {
                return Err(ParseError::InvalidDigit);
            }
            seen = true;
        }
        j += 1;
    }
    if !seen {
        return Err(ParseError::EmptyDigits);
    }

    // Second pass: accumulate the value, reporting overflow past u64.
    let mut acc: u64 = 0;
    j = 0;
    while j < dlen
        invariant
            0 <= j <= dlen,
            plo + dlen == hi,
            hi <= n,
            n == s@.len(),
            d == s@.subrange(plo as int, hi as int),
            d.len() == dlen,
            2 <= radix <= 16,
            radix as int == lit_radix(s@),
            d == lit_digits(s@),
            signed == lit_signed(s@),
            exists|i: int| 0 <= i < d.len() && d[i] != '_',
            forall|i: int| 0 <= i < d.len() ==> d[i] == '_' || digit_value(d[i]) < radix,
            acc as int == digits_val(d.subrange(0, j as int), radix as int),
        decreases dlen - j,
    {
        let c = s.get_char(plo + j);
        assert(c == d[j as int]);
        proof {
            assert(d.subrange(0, j + 1).drop_last() =~= d.subrange(0, j as int));
            assert(d.subrange(0, j + 1).last() == d[j as int]);
            if d[j as int] == '_' {
                assert(digits_val(d.subrange(0, j + 1), radix as int) == digits_val(
                    d.subrange(0, j as int),
                    radix as int,
                ));
            } else {
                assert(digits_val(d.subrange(0, j + 1), radix as int) == digits_val(
                    d.subrange(0, j as int),
                    radix as int,
                ) * (radix as int) + digit_value(d[j as int]));
            }
        }
        if c != '_' {
            let dv = digit_val(c);
            let overflowed: bool;
            match acc.checked_mul(radix as u64) {
                Some(m1) => {
                    match m1.checked_add(dv as u64) {
                        Some(a2) => {
                            acc = a2;
                            overflowed = false;
                        },
                        None => {
                            overflowed = true;
                        },
                    }
                },
                None => {
                    overflowed = true;
                },
            }
            if overflowed {
                proof {
                    lemma_digits_val_nonneg(d.subrange(0, j as int), radix as int);
                    assert(digits_val(d.subrange(0, j + 1), radix as int) > u64::MAX);
                    lemma_digits_val_prefix_mono(d, radix as int, j + 1);
                }
                return Err(ParseError::TooLarge);
            }
        }
        j += 1;
    }
    proof {
        assert(d.subrange(0, dlen as int) =~= d);
    }
    Ok((acc, signed))
}

} // verus!
