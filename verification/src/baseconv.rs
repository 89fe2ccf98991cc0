use vstd::prelude::*;
use base64::Engine;
use crate::hexstr;
use crate::text;

verus! {

/// Why a base conversion was refused.
#[derive(Clone, Copy, Debug, PartialEq, Eq, Structural)]
pub enum ConvertError {
    UnsupportedSourceBase,
    UnsupportedTargetBase,
    EmptyDigits,
    InvalidDigit,
    OutOfRange,
    InvalidBase64,
    InvalidUtf8,
}

/// The numeric value of a digit character, case-insensitively;
/// 36 marks a character that is no digit in any supported radix.
pub open spec fn digit_val(c: char) -> int {
    if '0' <= c && c <= '9' {
        c as u32 - '0' as u32
    } else if 'a' <= c && c <= 'z' {
        c as u32 - 'a' as u32 + 10
    } else if 'A' <= c && c <= 'Z' {
        c as u32 - 'A' as u32 + 10
    } else {
        36
    }
}

/// Whether `c` is a digit of the given radix.
pub open spec fn is_digit(c: char, radix: u32) -> bool {
    digit_val(c) < radix
}

/// Whether every character of `s` is a digit of the given radix.
pub open spec fn all_digits(s: Seq<char>, radix: u32) -> bool {
    forall|i: int| 0 <= i < s.len() ==> is_digit(#[trigger] s[i], radix)
}

/// The value of an unsigned digit string, most significant digit first.
pub open spec fn digits_val(s: Seq<char>, radix: u32) -> int
    decreases s.len(),
{
    if s.len() == 0 {
        0
    } else {
        digits_val(s.drop_last(), radix) * radix + digit_val(s.last())
    }
}

/// Whether the number starts with a minus sign.
pub open spec fn sign_of(s: Seq<char>) -> bool {
    s.len() > 0 && s[0] == '-'
}

/// The digit part of a number: everything after an optional single sign.
pub open spec fn digits_of(s: Seq<char>) -> Seq<char> {
    if s.len() > 0 && (s[0] == '-' || s[0] == '+') {
        s.drop_first()
    } else {
        s
    }
}

/// The signed value a number string denotes.
pub open spec fn signed_val(s: Seq<char>, radix: u32) -> int {
    if sign_of(s) {
        -digits_val(digits_of(s), radix)
    } else {
        digits_val(digits_of(s), radix)
    }
}

/// What parsing a signed 64-bit number must return: its value when the
/// digits are well formed and the value fits, the exact error otherwise.
pub open spec fn spec_parse_i64(s: Seq<char>, radix: u32) -> Result<int, ConvertError> {
    if digits_of(s).len() == 0 {
        Err(ConvertError::EmptyDigits)
    } else if !all_digits(digits_of(s), radix) {
        Err(ConvertError::InvalidDigit)
    } else if signed_val(s, radix) < i64::MIN || signed_val(s, radix) > i64::MAX {
        Err(ConvertError::OutOfRange)
    } else {
        Ok(signed_val(s, radix))
    }
}

/// A well-formed digit string has a non-negative value.
proof fn lemma_digits_val_nonneg(s: Seq<char>, radix: u32)
    requires
        all_digits(s, radix),
    ensures
        digits_val(s, radix) >= 0,
    decreases s.len(),
{
    if s.len() > 0 {
        assert(forall|i: int|
            0 <= i < s.len() - 1 ==> #[trigger] s.drop_last()[i] == s[i]);
        lemma_digits_val_nonneg(s.drop_last(), radix);
        assert(digits_val(s.drop_last(), radix) * radix >= 0) by (nonlinear_arith)
            requires
                digits_val(s.drop_last(), radix) >= 0,
                radix >= 0,
        ;
    }
}

/// Extending a well-formed digit string never shrinks its value.
proof fn lemma_digits_val_prefix(s: Seq<char>, radix: u32, i: int)
    requires
        all_digits(s, radix),
        radix >= 1,
        0 <= i <= s.len(),
    ensures
        digits_val(s.take(i), radix) <= digits_val(s, radix),
    decreases s.len() - i,
{
    if i == s.len() {
        assert(s.take(i) =~= s);
    } else {
        lemma_digits_val_prefix(s, radix, i + 1);
        let p = s.take(i);
        let q = s.take(i + 1);
        assert(q.drop_last() =~= p);
        assert(q.last() == s[i]);
        assert(forall|j: int| 0 <= j < p.len() ==> #[trigger] p[j] == s[j]);
        lemma_digits_val_nonneg(p, radix);
        assert(digits_val(p, radix) * radix >= digits_val(p, radix)) by (nonlinear_arith)
            requires
                digits_val(p, radix) >= 0,
                radix >= 1,
        ;
        assert(digits_val(q, radix) >= digits_val(p, radix));
    }
}

fn digit_of_char(c: char, radix: u32) -> (r: Option<u32>)
    requires
        2 <= radix <= 36,
    ensures
        match r {
            Some(d) => is_digit(c, radix) && d == digit_val(c) && d < radix,
            None => !is_digit(c, radix),
        },
{
    let u = c as u32;
    let d: u32 = if u >= 48 && u <= 57 {
        u - 48
    } else if u >= 97 && u <= 122 {
        u - 97 + 10
    } else if u >= 65 && u <= 90 {
        u - 65 + 10
    } else {
        36
    };
    if d < radix {
        Some(d)
    } else {
        None
    }
}

/// Parses a signed number of the given radix: an optional single `+` or `-`
/// sign, then at least one digit; the value must fit a signed 64-bit integer.
/// Ill-formed digits are reported before an out-of-range value.
pub fn parse_i64_radix(s: &str, radix: u32) -> (r: Result<i64, ConvertError>)
    requires
        2 <= radix <= 36,
    ensures
        match r {
            Ok(v) => spec_parse_i64(s@, radix) == Ok::<int, ConvertError>(v as int),
            Err(e) => spec_parse_i64(s@, radix) == Err::<int, ConvertError>(e),
        },
{
    let n: usize = s.unicode_len();
    if n == 0 {
        return Err(ConvertError::EmptyDigits);
    }
    let c0 = s.get_char(0);
    let neg = c0 == '-';
    let has_sign = neg || c0 == '+';
    let start: usize = if has_sign {
        1
    } else {
        0
    };
    let ghost digits = digits_of(s@);
    proof {
        if has_sign {
            assert(digits =~= s@.skip(1));
        } else {
            assert(digits =~= s@);
        }
    }
    if start == n {
        return Err(ConvertError::EmptyDigits);
    }
    let mut i: usize = start;
    while i < n
        invariant
            2 <= radix <= 36,
            start <= i <= n,
            n == s@.len(),
            start == if has_sign { 1int } else { 0int },
            digits == digits_of(s@),
            digits.len() == n - start,
            forall|j: int| 0 <= j < digits.len() ==> digits[j] == s@[j + start],
            all_digits(digits.take(i - start), radix),
        decreases n - i,
    {
        let c = s.get_char(i);
        if digit_of_char(c, radix).is_none() {
            proof {
                assert(digits[i - start] == s@[i as int]);
                assert(!all_digits(digits, radix));
            }
            return Err(ConvertError::InvalidDigit);
        }
        i = i + 1;
        proof {
            assert(digits.take(i - start).drop_last() =~= digits.take(i - start - 1));
            assert(digits.take(i - start).last() == s@[i - 1]);
        }
    }
    proof {
        assert(digits.take(n - start) =~= digits);
        assert(all_digits(digits, radix));
    }
    let mut acc: i64 = 0;
    i = start;
    while i < n
        invariant
            2 <= radix <= 36,
            start <= i <= n,
            n == s@.len(),
            start == if has_sign { 1int } else { 0int },
            digits == digits_of(s@),
            digits.len() == n - start,
            digits.len() > 0,
            neg ==> sign_of(s@),
            !neg ==> !sign_of(s@),
            forall|j: int| 0 <= j < digits.len() ==> digits[j] == s@[j + start],
            all_digits(digits, radix),
            neg ==> acc == -digits_val(digits.take(i - start), radix),
            !neg ==> acc == digits_val(digits.take(i - start), radix),
        decreases n - i,
    {
        let ghost k = i - start;
        let ghost pre = digits.take(k as int);
        let ghost x = digits_val(pre, radix);
        let ghost dd = digit_val(digits[k]);
        proof {
            assert(digits.take(k + 1).drop_last() =~= pre);
            assert(digits.take(k + 1).last() == digits[k as int]);
            assert(digits[k as int] == s@[i as int]);
            assert(forall|j: int| 0 <= j < pre.len() ==> #[trigger] pre[j] == digits[j]);
            lemma_digits_val_nonneg(pre, radix);
            assert(digits_val(digits.take(k + 1), radix) == x * radix + dd);
            assert(is_digit(digits[k as int], radix));
            assert(dd >= 0 && dd < radix);
        }
        let c = s.get_char(i);
        let d = match digit_of_char(c, radix) {
            Some(d) => d,
            None => {
                return Err(ConvertError::InvalidDigit);
            },
        };
        if neg {
            proof {
                assert(acc * radix == -(x * radix)) by (nonlinear_arith)
                    requires
                        acc == -x,
                ;
                assert(acc * radix <= 0) by (nonlinear_arith)
                    requires
                        acc <= 0,
                        radix >= 0,
                ;
            }
            let m = match acc.checked_mul(radix as i64) {
                Some(m) => m,
                None => {
                    proof {
                        assert(-digits_val(digits.take(k + 1), radix) < i64::MIN);
                        overflow_negative(s@, radix, k + 1);
                    }
                    return Err(ConvertError::OutOfRange);
                },
            };
            acc = match m.checked_sub(d as i64) {
                Some(a) => a,
                None => {
                    proof {
                        assert(-digits_val(digits.take(k + 1), radix) < i64::MIN);
                        overflow_negative(s@, radix, k + 1);
                    }
                    return Err(ConvertError::OutOfRange);
                },
            };
            proof {
                assert(acc == -digits_val(digits.take(k + 1), radix));
            }
        } else {
            proof {
                assert(acc * radix == x * radix) by (nonlinear_arith)
                    requires
                        acc == x,
                ;
                assert(acc * radix >= 0) by (nonlinear_arith)
                    requires
                        acc >= 0,
                        radix >= 0,
                ;
            }
            let m = match acc.checked_mul(radix as i64) {
                Some(m) => m,
                None => {
                    proof {
                        assert(digits_val(digits.take(k + 1), radix) > i64::MAX);
                        overflow_positive(s@, radix, k + 1);
                    }
                    return Err(ConvertError::OutOfRange);
                },
            };
            acc = match m.checked_add(d as i64) {
                Some(a) => a,
                None => {
                    proof {
                        assert(digits_val(digits.take(k + 1), radix) > i64::MAX);
                        overflow_positive(s@, radix, k + 1);
                    }
                    return Err(ConvertError::OutOfRange);
                },
            };
            proof {
                assert(acc == digits_val(digits.take(k + 1), radix));
            }
        }
        i = i + 1;
        proof {
            assert(digits.take(i - start) == digits.take(k + 1));
        }
    }
    proof {
        assert(digits.take(n - start) =~= digits);
    }
    Ok(acc)
}

/// If some prefix of the well-formed digits already exceeds `i64::MAX`,
/// the whole number does.
proof fn overflow_positive(s: Seq<char>, radix: u32, k: int)
    requires
        radix >= 1,
        0 <= k <= digits_of(s).len(),
        0 < digits_of(s).len(),
        all_digits(digits_of(s), radix),
        digits_val(digits_of(s).take(k), radix) > i64::MAX,
        !sign_of(s),
    ensures
        spec_parse_i64(s, radix) == Err::<int, ConvertError>(ConvertError::OutOfRange),
{
    let digits = digits_of(s);
    lemma_digits_val_prefix(digits, radix, k);
    assert(signed_val(s, radix) > i64::MAX);
}

/// If some prefix of the well-formed digits already exceeds the magnitude
/// of `i64::MIN`, the whole negative number falls below it.
proof fn overflow_negative(s: Seq<char>, radix: u32, k: int)
    requires
        radix >= 1,
        0 <= k <= digits_of(s).len(),
        0 < digits_of(s).len(),
        all_digits(digits_of(s), radix),
        -digits_val(digits_of(s).take(k), radix) < i64::MIN,
        sign_of(s),
    ensures
        spec_parse_i64(s, radix) == Err::<int, ConvertError>(ConvertError::OutOfRange),
{
    let digits = digits_of(s);
    lemma_digits_val_prefix(digits, radix, k);
    assert(signed_val(s, radix) < i64::MIN);
}

/// The digit characters of an unsigned value, most significant first, with
/// no leading zero except for the value zero itself.
pub open spec fn digits_rep(v: nat, radix: nat) -> Seq<char>
    decreases v,
    when 2 <= radix <= 16
    via digits_rep_decreases
{
    if v < radix {
        seq![hexstr::nibble_char(v as u8)]
    } else {
        digits_rep(v / radix, radix).push(hexstr::nibble_char((v % radix) as u8))
    }
}

#[via_fn]
proof fn digits_rep_decreases(v: nat, radix: nat) {
    if v >= radix {
        assert(v / radix < v) by (nonlinear_arith)
            requires
                radix >= 2,
                v >= radix,
        ;
    }
}

/// Renders an unsigned value in the given radix.
pub fn format_radix_u64(v: u64, radix: u64) -> (r: String)
    requires
        2 <= radix <= 16,
    ensures
        r@ == digits_rep(v as nat, radix as nat),
    decreases v,
{
    if v < radix {
        let mut r = String::new();
        r.push(hexstr::nibble(v as u8));
        proof {
            assert(r@ =~= digits_rep(v as nat, radix as nat));
        }
        r
    } else {
        proof {
            assert(v / radix < v) by (nonlinear_arith)
                requires
                    radix >= 2,
                    v >= radix,
            ;
        }
        let mut r = format_radix_u64(v / radix, radix);
        r.push(hexstr::nibble((v % radix) as u8));
        r
    }
}

/// The unsigned 64-bit pattern of a signed value (two's complement).
pub open spec fn bits_of(v: i64) -> nat {
    if v >= 0 {
        v as nat
    } else {
        (v + 0x1_0000_0000_0000_0000) as nat
    }
}

/// The magnitude of a signed value.
pub open spec fn mag_of(v: i64) -> nat {
    if v >= 0 {
        v as nat
    } else {
        (-(v as int)) as nat
    }
}

/// Which radix a source- or target-base name denotes, if any.
pub open spec fn radix_of_base(base: Seq<char>) -> Option<u32> {
    if base == "binary"@ || base == "bin"@ {
        Some(2u32)
    } else if base == "decimal"@ || base == "dec"@ {
        Some(10u32)
    } else if base == "hex"@ || base == "hexadecimal"@ {
        Some(16u32)
    } else if base == "octal"@ || base == "oct"@ {
        Some(8u32)
    } else {
        None
    }
}

/// The conventional prefix stripped from (and printed before) a number of
/// the given radix.
pub open spec fn prefix_of_radix(radix: u32) -> Seq<char> {
    if radix == 2 {
        "0b"@
    } else if radix == 16 {
        "0x"@
    } else if radix == 8 {
        "0o"@
    } else {
        Seq::empty()
    }
}

/// `s` with every leading repetition of `p` removed.
pub open spec fn strip_all(s: Seq<char>, p: Seq<char>) -> Seq<char>
    decreases s.len(),
{
    if p.len() > 0 && s.len() >= p.len() && s.take(p.len() as int) == p {
        strip_all(s.skip(p.len() as int), p)
    } else {
        s
    }
}

fn strip_prefix_all(s: &str, p: &str) -> (r: String)
    requires
        p@.len() >= 1,
    ensures
        r@ == strip_all(s@, p@),
    decreases s@.len(),
{
    let n: usize = s.unicode_len();
    let m: usize = p.unicode_len();
    if n >= m {
        let head = s.substring_char(0, m);
        if head.to_owned() == p.to_owned() {
            proof {
                assert(s@.take(m as int) =~= s@.subrange(0, m as int));
            }
            let rest = s.substring_char(m, n);
            proof {
                assert(rest@ =~= s@.skip(m as int));
            }
            return strip_prefix_all(rest, p);
        }
    }
    s.to_owned()
}

/// What parsing a prefixed number of a named base must return.
pub open spec fn spec_parse_to_decimal(value: Seq<char>, base: Seq<char>) -> Result<
    int,
    ConvertError,
> {
    match radix_of_base(base) {
        None => Err(ConvertError::UnsupportedSourceBase),
        Some(radix) => spec_parse_i64(strip_all(value, prefix_of_radix(radix)), radix),
    }
}

fn base_is(base: &String, lit: &str) -> (r: bool)
    ensures
        r == (base@ == lit@),
{
    *base == lit.to_owned()
}

/// Parses `value` as a number of the named base (already lower-case), after
/// stripping the base's conventional prefix.
pub fn parse_to_decimal(value: &str, base: &str) -> (r: Result<i64, ConvertError>)
    ensures
        match r {
            Ok(v) => spec_parse_to_decimal(value@, base@) == Ok::<int, ConvertError>(v as int),
            Err(e) => spec_parse_to_decimal(value@, base@) == Err::<int, ConvertError>(e),
        },
{
    let b = base.to_owned();
    let radix: u32 = if base_is(&b, "binary") || base_is(&b, "bin") {
        2
    } else if base_is(&b, "decimal") || base_is(&b, "dec") {
        10
    } else if base_is(&b, "hex") || base_is(&b, "hexadecimal") {
        16
    } else if base_is(&b, "octal") || base_is(&b, "oct") {
        8
    } else {
        return Err(ConvertError::UnsupportedSourceBase);
    };
    proof {
        reveal_strlit("0b");
        reveal_strlit("0x");
        reveal_strlit("0o");
    }
    let stripped: String = if radix == 2 {
        strip_prefix_all(value, "0b")
    } else if radix == 16 {
        strip_prefix_all(value, "0x")
    } else if radix == 8 {
        strip_prefix_all(value, "0o")
    } else {
        proof {
            assert(strip_all(value@, prefix_of_radix(radix)) == value@);
        }
        value.to_owned()
    };
    parse_i64_radix(stripped.as_str(), radix)
}

/// What formatting a value in a named base must return: the radix's prefix
/// and the two's-complement digits, or the signed decimal rendering.
pub open spec fn spec_format_from_decimal(value: i64, base: Seq<char>) -> Result<
    Seq<char>,
    ConvertError,
> {
    if base == "binary"@ || base == "bin"@ {
        Ok("0b"@ + digits_rep(bits_of(value), 2))
    } else if base == "decimal"@ || base == "dec"@ {
        if value < 0 {
            Ok(seq!['-'] + digits_rep(mag_of(value), 10))
        } else {
            Ok(digits_rep(value as nat, 10))
        }
    } else if base == "hex"@ || base == "hexadecimal"@ {
        Ok("0x"@ + digits_rep(bits_of(value), 16))
    } else if base == "octal"@ || base == "oct"@ {
        Ok("0o"@ + digits_rep(bits_of(value), 8))
    } else {
        Err(ConvertError::UnsupportedTargetBase)
    }
}

fn prefixed_radix(prefix: &str, bits: u64, radix: u64) -> (r: String)
    requires
        2 <= radix <= 16,
    ensures
        r@ == prefix@ + digits_rep(bits as nat, radix as nat),
{
    let mut r = prefix.to_owned();
    let d = format_radix_u64(bits, radix);
    r.append(d.as_str());
    r
}

/// Formats `value` in the named base (already lower-case): signed for
/// decimal, the prefixed two's-complement bit pattern for the others.
pub fn format_from_decimal(value: i64, base: &str) -> (r: Result<String, ConvertError>)
    ensures
        match r {
            Ok(t) => spec_format_from_decimal(value, base@) == Ok::<Seq<char>, ConvertError>(t@),
            Err(e) => spec_format_from_decimal(value, base@) == Err::<Seq<char>, ConvertError>(e),
        },
{
    let b = base.to_owned();
    if base_is(&b, "binary") || base_is(&b, "bin") {
        Ok(prefixed_radix("0b", to_bits(value), 2))
    } else if base_is(&b, "decimal") || base_is(&b, "dec") {
        if value < 0 {
            let mag: u64 = if value == i64::MIN {
                9223372036854775808u64
            } else {
                (-value) as u64
            };
            proof {
                assert(mag == mag_of(value));
                reveal_strlit("-");
                assert("-"@ =~= seq!['-']);
            }
            Ok(prefixed_radix("-", mag, 10))
        } else {
            Ok(format_radix_u64(value as u64, 10))
        }
    } else if base_is(&b, "hex") || base_is(&b, "hexadecimal") {
        Ok(prefixed_radix("0x", to_bits(value), 16))
    } else if base_is(&b, "octal") || base_is(&b, "oct") {
        Ok(prefixed_radix("0o", to_bits(value), 8))
    } else {
        Err(ConvertError::UnsupportedTargetBase)
    }
}

pub uninterp spec fn b64_of(text: Seq<char>) -> Seq<char>;

/// Relies on base64's standard-alphabet padded `Engine::encode`: the encoding
/// is a function of the input's UTF-8 bytes alone.
#[verifier::external_body]
fn b64_encode_text(text: &str) -> (r: String)
    ensures
        r@ == b64_of(text@),
{
    base64::prelude::BASE64_STANDARD.encode(text.as_bytes())
}

pub uninterp spec fn b64_decode_of(text: Seq<char>) -> Option<Seq<u8>>;

/// Relies on base64's standard-alphabet padded `Engine::decode`: whether the
/// input decodes, and to which bytes, is a function of the input alone.
#[verifier::external_body]
fn b64_decode_text(text: &str) -> (r: Option<Vec<u8>>)
    ensures
        match r {
            Some(b) => b64_decode_of(text@) == Some(b@),
            None => b64_decode_of(text@) is None,
        },
{
    match base64::prelude::BASE64_STANDARD.decode(text.as_bytes()) {
        Ok(b) => Some(b),
        Err(_) => None,
    }
}

/// Relies on alloc's `String::from_utf8`: it succeeds exactly on valid UTF-8
/// and returns the characters those bytes encode.
#[verifier::external_body]
fn utf8_to_string(bytes: Vec<u8>) -> (r: Option<String>)
    ensures
        match r {
            Some(t) => vstd::utf8::valid_utf8(bytes@) && t@ == vstd::utf8::decode_utf8(bytes@),
            None => !vstd::utf8::valid_utf8(bytes@),
        },
{
    match String::from_utf8(bytes) {
        Ok(t) => Some(t),
        Err(_) => None,
    }
}

/// What a whole conversion must return: base64 to or from text, or a numeric
/// reparse and reformat, with base names read case-insensitively.
pub open spec fn spec_convert(value: Seq<char>, from: Seq<char>, to: Seq<char>) -> Result<
    Seq<char>,
    ConvertError,
> {
    let fl = text::lower(from);
    let tl = text::lower(to);
    if fl == "text"@ && tl == "base64"@ {
        Ok(b64_of(value))
    } else if fl == "base64"@ && tl == "text"@ {
        match b64_decode_of(value) {
            None => Err(ConvertError::InvalidBase64),
            Some(bytes) => if vstd::utf8::valid_utf8(bytes) {
                Ok(vstd::utf8::decode_utf8(bytes))
            } else {
                Err(ConvertError::InvalidUtf8)
            },
        }
    } else {
        match spec_parse_to_decimal(value, fl) {
            Err(e) => Err(e),
            Ok(v) => spec_format_from_decimal(v as i64, tl),
        }
    }
}

/// Converts `value` from one named representation to another: text/base64
/// both ways, and signed 64-bit numbers between binary, octal, decimal and
/// hexadecimal.
pub fn convert(value: &str, from: &str, to: &str) -> (r: Result<String, ConvertError>)
    ensures
        match r {
            Ok(t) => spec_convert(value@, from@, to@) == Ok::<Seq<char>, ConvertError>(t@),
            Err(e) => spec_convert(value@, from@, to@) == Err::<Seq<char>, ConvertError>(e),
        },
{
    let fl = text::to_ascii_lower(from);
    let tl = text::to_ascii_lower(to);
    if base_is(&fl, "text") && base_is(&tl, "base64") {
        Ok(b64_encode_text(value))
    } else if base_is(&fl, "base64") && base_is(&tl, "text") {
        match b64_decode_text(value) {
            None => Err(ConvertError::InvalidBase64),
            Some(bytes) => match utf8_to_string(bytes) {
                None => Err(ConvertError::InvalidUtf8),
                Some(t) => Ok(t),
            },
        }
    } else {
        match parse_to_decimal(value, fl.as_str()) {
            Err(e) => Err(e),
            Ok(v) => format_from_decimal(v, tl.as_str()),
        }
    }
}

fn to_bits(value: i64) -> (r: u64)
    ensures
        r as nat == bits_of(value),
{
    if value >= 0 {
        value as u64
    } else {
        let m: u64 = if value == i64::MIN {
            9223372036854775808u64
        } else {
            (-value) as u64
        };
        u64::MAX - (m - 1)
    }
}

} // verus!
