use vstd::prelude::*;

verus! {

/// Why a password request was refused.
#[derive(Clone, Copy, Debug, PartialEq, Eq, Structural)]
pub enum PasswordError {
    TooShort,
}

/// The characters a password may draw from: letters and digits, plus the
/// symbol set when asked for.
pub open spec fn spec_charset(use_symbols: bool) -> Seq<char> {
    if use_symbols {
        "abcdefghijklmnopqrstuvwxyzABCDEFGHIJKLMNOPQRSTUVWXYZ0123456789!@#$%^&*()_+-=[]{}|;:,.<>?"@
    } else {
        "abcdefghijklmnopqrstuvwxyzABCDEFGHIJKLMNOPQRSTUVWXYZ0123456789"@
    }
}

/// Builds the character set passwords draw from.
pub fn build_charset(use_symbols: bool) -> (r: String)
    ensures
        r@ == spec_charset(use_symbols),
        r@.len() > 0,
{
    proof {
        reveal_strlit(
            "abcdefghijklmnopqrstuvwxyzABCDEFGHIJKLMNOPQRSTUVWXYZ0123456789!@#$%^&*()_+-=[]{}|;:,.<>?",
        );
        reveal_strlit("abcdefghijklmnopqrstuvwxyzABCDEFGHIJKLMNOPQRSTUVWXYZ0123456789");
    }
    if use_symbols {
        "abcdefghijklmnopqrstuvwxyzABCDEFGHIJKLMNOPQRSTUVWXYZ0123456789!@#$%^&*()_+-=[]{}|;:,.<>?".to_owned()
    } else {
        "abcdefghijklmnopqrstuvwxyzABCDEFGHIJKLMNOPQRSTUVWXYZ0123456789".to_owned()
    }
}

/// Relies on rand's `random_range`: the draw is always below the bound
/// (the range is non-empty, so the call cannot panic).
#[verifier::external_body]
fn random_below(bound: usize) -> (r: usize)
    requires
        bound >= 1,
    ensures
        r < bound,
{
    rand::random_range(0..bound)
}

/// Generates a random password of the asked-for length, drawn from the
/// character set; lengths under four are refused.
pub fn generate_password(length: usize, use_symbols: bool) -> (r: Result<String, PasswordError>)
    ensures
        match r {
            Ok(p) => length >= 4 && p@.len() == length && forall|i: int|
                0 <= i < p@.len() ==> spec_charset(use_symbols).contains(#[trigger] p@[i]),
            Err(e) => length < 4 && e == PasswordError::TooShort,
        },
{
    if length < 4 {
        return Err(PasswordError::TooShort);
    }
    let charset = build_charset(use_symbols);
    let n: usize = charset.as_str().unicode_len();
    let mut p = String::new();
    let mut made: usize = 0;
    while made < length
        invariant
            made <= length,
            n == charset@.len(),
            n > 0,
            charset@ == spec_charset(use_symbols),
            p@.len() == made,
            forall|i: int|
                0 <= i < p@.len() ==> spec_charset(use_symbols).contains(#[trigger] p@[i]),
        decreases length - made,
    {
        let idx = random_below(n);
        let c = charset.as_str().get_char(idx);
        proof {
            assert(spec_charset(use_symbols)[idx as int] == c);
        }
        p.push(c);
        made = made + 1;
    }
    Ok(p)
}

/// The strength label of a password request: the length, plus ten when
/// symbols are in play, measured against fixed thresholds.
pub open spec fn spec_strength(length: int, has_symbols: bool) -> Seq<char> {
    let score = length + if has_symbols {
        10int
    } else {
        0int
    };
    if score >= 20 {
        "Very Strong"@
    } else if score >= 15 {
        "Strong"@
    } else if score >= 10 {
        "Medium"@
    } else {
        "Weak"@
    }
}

/// Labels the strength of a password request.
pub fn calculate_strength(length: usize, has_symbols: bool) -> (r: String)
    requires
        length <= usize::MAX - 10,
    ensures
        r@ == spec_strength(length as int, has_symbols),
{
    let score = length + if has_symbols {
        10usize
    } else {
        0usize
    };
    if score >= 20 {
        "Very Strong".to_owned()
    } else if score >= 15 {
        "Strong".to_owned()
    } else if score >= 10 {
        "Medium".to_owned()
    } else {
        "Weak".to_owned()
    }
}

} // verus!
