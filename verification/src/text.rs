use vstd::prelude::*;
use crate::lexer::types::{Token, SpecToken};
use crate::type_inferencer::types::{Type, TypeVariable, SpecType, SpecVar};

verus! {

/// `String::push`. Claimed: the string afterwards is the old one with `c`
/// appended.
#[verifier::external_body]
pub(crate) fn push_char(s: &mut String, c: char)
    ensures
        final(s)@ == old(s)@.push(c),
{
    s.push(c);
}

/// The character of a decimal digit.
pub open spec fn digit_char(d: nat) -> char {
    (d + 48) as char
}

/// The decimal digits of `n`, most significant first, without leading zeros.
pub open spec fn decimal_text(n: nat) -> Seq<char>
    decreases n,
{
    if n < 10 {
        seq![digit_char(n)]
    } else {
        decimal_text(n / 10).push(digit_char(n % 10))
    }
}

/// Appends the decimal digits of `n`.
pub fn push_decimal(s: &mut String, n: usize)
    ensures
        final(s)@ == old(s)@ + decimal_text(n as nat),
    decreases n,
{
    if n >= 10 {
        push_decimal(s, n / 10);
    }
    let d: u8 = (n % 10) as u8;
    push_char(s, (d + 48) as char);
    assert(final(s)@ =~= old(s)@ + decimal_text(n as nat));
}

/// The `{:?}` text of a token, as the derived `Debug` writes it.
pub uninterp spec fn token_debug_text(t: SpecToken) -> Seq<char>;

/// The `{:?}` text of a type, as the derived `Debug` writes it.
pub uninterp spec fn type_debug_text(t: SpecType) -> Seq<char>;

/// The `{:?}` text of a type variable, as the derived `Debug` writes it.
pub uninterp spec fn type_variable_debug_text(v: SpecVar) -> Seq<char>;

/// `format!` with `{:?}`, the derived `Debug`, on a token. Claimed: the text
/// depends on the token's view alone; what the text is is left unsaid.
#[verifier::external_body]
pub(crate) fn token_debug(t: &Token) -> (r: String)
    ensures
        r@ == token_debug_text(t@),
{
    format!("{:?}", t)
}

/// `format!` with `{:?}`, the derived `Debug`, on a type. Claimed: the text
/// depends on the type's view alone; what the text is is left unsaid.
#[verifier::external_body]
pub(crate) fn type_debug(t: &Type) -> (r: String)
    ensures
        r@ == type_debug_text(t@),
{
    format!("{:?}", t)
}

/// `format!` with `{:?}`, the derived `Debug`, on a type variable. Claimed:
/// the text depends on the variable's view alone; what the text is is left unsaid.
#[verifier::external_body]
pub(crate) fn type_variable_debug(v: &TypeVariable) -> (r: String)
    ensures
        r@ == type_variable_debug_text(v@),
{
    format!("{:?}", v)
}

} // verus!
