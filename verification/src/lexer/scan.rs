use vstd::prelude::*;
use crate::lexer::types::{Token, SpecToken, Keyword, AdditiveOps, MultiplicativeOps, BooleanOps};

verus! {

pub open spec fn is_white_space_byte(c: u8) -> bool {
    c == 32 || c == 10 || c == 13 || c == 9
}

pub open spec fn is_digit_byte(c: u8) -> bool {
    48 <= c <= 57
}

pub open spec fn is_alpha_byte(c: u8) -> bool {
    (65 <= c <= 90) || (97 <= c <= 122)
}

/// A byte that may continue an identifier: a letter, a digit or `_`.
pub open spec fn is_ident_byte(c: u8) -> bool {
    is_alpha_byte(c) || is_digit_byte(c) || c == 95
}

/// The first position from `i` on that is not white space (or the end).
pub open spec fn skip_white_space(s: Seq<u8>, i: int) -> int
    decreases s.len() - i,
{
    if 0 <= i < s.len() && is_white_space_byte(s[i]) {
        skip_white_space(s, i + 1)
    } else {
        i
    }
}

/// The first position from `i` on that does not continue an identifier.
pub open spec fn ident_end(s: Seq<u8>, i: int) -> int
    decreases s.len() - i,
{
    if 0 <= i < s.len() && is_ident_byte(s[i]) {
        ident_end(s, i + 1)
    } else {
        i
    }
}

/// The first position from `i` on that is not a digit.
pub open spec fn digits_end(s: Seq<u8>, i: int) -> int
    decreases s.len() - i,
{
    if 0 <= i < s.len() && is_digit_byte(s[i]) {
        digits_end(s, i + 1)
    } else {
        i
    }
}

pub proof fn lemma_skip_white_space_bounds(s: Seq<u8>, i: int)
    requires
        0 <= i <= s.len(),
    ensures
        i <= skip_white_space(s, i) <= s.len(),
    decreases s.len() - i,
{
    if i < s.len() && is_white_space_byte(s[i]) {
        lemma_skip_white_space_bounds(s, i + 1);
    }
}

pub proof fn lemma_ident_end_bounds(s: Seq<u8>, i: int)
    requires
        0 <= i <= s.len(),
    ensures
        i <= ident_end(s, i) <= s.len(),
    decreases s.len() - i,
{
    if i < s.len() && is_ident_byte(s[i]) {
        lemma_ident_end_bounds(s, i + 1);
    }
}

pub proof fn lemma_digits_end_bounds(s: Seq<u8>, i: int)
    requires
        0 <= i <= s.len(),
    ensures
        i <= digits_end(s, i) <= s.len(),
    decreases s.len() - i,
{
    if i < s.len() && is_digit_byte(s[i]) {
        lemma_digits_end_bounds(s, i + 1);
    }
}

/// The value of a sequence of decimal digits.
pub open spec fn decimal_value(ds: Seq<u8>) -> int
    decreases ds.len(),
{
    if ds.len() == 0 {
        0
    } else {
        10 * decimal_value(ds.drop_last()) + (ds.last() - 48)
    }
}

/// The bytes of `word` stand at `i`.
pub open spec fn symbol_at(s: Seq<u8>, i: int, word: Seq<u8>) -> bool {
    0 <= i && i + word.len() <= s.len() && s.subrange(i, i + word.len()) == word
}

/// The bytes of `word` stand at `i`, followed by the end or by a byte that
/// cannot continue an identifier.
pub open spec fn keyword_at(s: Seq<u8>, i: int, word: Seq<u8>) -> bool {
    symbol_at(s, i, word) && (i + word.len() == s.len() || !is_ident_byte(s[i + word.len()]))
}

/// The result of reading one token at a position that is not white space.
pub enum Scan {
    /// A token, and the position after it.
    Emit(SpecToken, int),
    /// No token (a lone `_`), and the position after it.
    Skip(int),
    /// A byte that begins no token.
    Reject,
    /// Reading panics: a `-` that begins a number without digits, or a number
    /// outside the range of `i64`.
    Crash,
}

/// A number at `j`: an optional leading `-` (the byte at `j`) and the digits after it.
pub open spec fn scan_number(s: Seq<u8>, j: int) -> Scan {
    let e = digits_end(s, j + 1);
    let negative = s[j] == 45;
    let value = if negative { -decimal_value(s.subrange(j + 1, e)) } else { decimal_value(s.subrange(j, e)) };
    if (negative && e == j + 1) || value < i64::MIN || value > i64::MAX {
        Scan::Crash
    } else {
        Scan::Emit(Token::IntegerLiteral(value as i64), e)
    }
}

/// The characters of a sequence of ASCII bytes.
pub open spec fn ascii_chars(bs: Seq<u8>) -> Seq<char> {
    bs.map_values(|b: u8| b as char)
}

/// An identifier at `j`: the byte at `j` and the identifier bytes after it; a
/// lone `_` yields no token.
pub open spec fn scan_identifier(s: Seq<u8>, j: int) -> Scan {
    let e = ident_end(s, j + 1);
    if e == j + 1 && s[j] == 95 {
        Scan::Skip(e)
    } else {
        Scan::Emit(Token::Identifier(ascii_chars(s.subrange(j, e))), e)
    }
}

/// Whether a `-` after this token begins a negative number: after a keyword,
/// `=`, an operator, `=>` or `(`.
pub open spec fn expects_operand(t: SpecToken) -> bool {
    t is Keyword || t is EqualSign || t is AdditiveOps || t is MultiplicativeOps || t is BooleanOps
        || t is Arrow || t is LParen
}

pub open spec fn single(t: SpecToken, j: int) -> Scan {
    Scan::Emit(t, j + 1)
}

/// The token at `j`, a position before the end that is not white space,
/// when the last token so far is `last`.
pub open spec fn scan(s: Seq<u8>, j: int, last: Option<SpecToken>) -> Scan {
    let c = s[j];
    if c == 40 {
        single(Token::LParen, j)
    } else if c == 41 {
        single(Token::RParen, j)
    } else if c == 43 {
        single(Token::AdditiveOps(AdditiveOps::Add), j)
    } else if c == 42 {
        single(Token::MultiplicativeOps(MultiplicativeOps::Mul), j)
    } else if c == 47 {
        single(Token::MultiplicativeOps(MultiplicativeOps::Div), j)
    } else if c == 45 {
        if last is None || expects_operand(last.unwrap()) {
            scan_number(s, j)
        } else {
            single(Token::AdditiveOps(AdditiveOps::Sub), j)
        }
    } else if c == 61 {
        if symbol_at(s, j, seq![61u8, 62u8]) {
            Scan::Emit(Token::Arrow, j + 2)
        } else if symbol_at(s, j, seq![61u8, 61u8]) {
            Scan::Emit(Token::BooleanOps(BooleanOps::Equality), j + 2)
        } else {
            single(Token::EqualSign, j)
        }
    } else if c == 60 {
        if symbol_at(s, j, seq![60u8, 61u8]) {
            Scan::Emit(Token::BooleanOps(BooleanOps::LessThanEqualTo), j + 2)
        } else {
            single(Token::BooleanOps(BooleanOps::LessThan), j)
        }
    } else if c == 62 {
        if symbol_at(s, j, seq![62u8, 61u8]) {
            Scan::Emit(Token::BooleanOps(BooleanOps::GreaterThanEqualTo), j + 2)
        } else {
            single(Token::BooleanOps(BooleanOps::GreaterThan), j)
        }
    } else if c == 102 {
        if keyword_at(s, j, seq![102u8, 110u8]) {
            Scan::Emit(Token::Keyword(Keyword::Fn), j + 2)
        } else if keyword_at(s, j, seq![102u8, 97u8, 108u8, 115u8, 101u8]) {
            Scan::Emit(Token::BooleanLiteral(false), j + 5)
        } else {
            scan_identifier(s, j)
        }
    } else if c == 108 {
        if keyword_at(s, j, seq![108u8, 101u8, 116u8, 114u8, 101u8, 99u8]) {
            Scan::Emit(Token::Keyword(Keyword::LetRec), j + 6)
        } else if keyword_at(s, j, seq![108u8, 101u8, 116u8]) {
            Scan::Emit(Token::Keyword(Keyword::Let), j + 3)
        } else {
            scan_identifier(s, j)
        }
    } else if c == 101 {
        if keyword_at(s, j, seq![101u8, 108u8, 115u8, 101u8]) {
            Scan::Emit(Token::Keyword(Keyword::Else), j + 4)
        } else {
            scan_identifier(s, j)
        }
    } else if c == 116 {
        if keyword_at(s, j, seq![116u8, 104u8, 101u8, 110u8]) {
            Scan::Emit(Token::Keyword(Keyword::Then), j + 4)
        } else if keyword_at(s, j, seq![116u8, 114u8, 117u8, 101u8]) {
            Scan::Emit(Token::BooleanLiteral(true), j + 4)
        } else {
            scan_identifier(s, j)
        }
    } else if c == 105 {
        if keyword_at(s, j, seq![105u8, 102u8]) {
            Scan::Emit(Token::Keyword(Keyword::If), j + 2)
        } else if keyword_at(s, j, seq![105u8, 110u8]) {
            Scan::Emit(Token::Keyword(Keyword::In), j + 2)
        } else {
            scan_identifier(s, j)
        }
    } else if is_digit_byte(c) {
        scan_number(s, j)
    } else if is_alpha_byte(c) || c == 95 {
        scan_identifier(s, j)
    } else {
        Scan::Reject
    }
}

/// Reading a token consumes at least one byte and stays within the input.
pub proof fn lemma_scan_advances(s: Seq<u8>, j: int, last: Option<SpecToken>)
    requires
        0 <= j < s.len(),
    ensures
        scan(s, j, last) matches Scan::Emit(_, k) ==> j < k <= s.len(),
        scan(s, j, last) matches Scan::Skip(k) ==> j < k <= s.len(),
{
    lemma_ident_end_bounds(s, j + 1);
    lemma_digits_end_bounds(s, j + 1);
}

/// How reading the input ends.
pub enum LexEnd {
    /// Every byte was read; the position reached.
    Finished,
    /// The byte at the position begins no token.
    Rejected(u8, int),
    /// Reading panics.
    Crashed,
}

/// The tokens read from position `i` on, when the last token so far is
/// `last`, and how reading ends.
pub open spec fn lex_from(s: Seq<u8>, i: int, last: Option<SpecToken>) -> (Seq<SpecToken>, LexEnd)
    decreases s.len() - i,
{
    if !(0 <= i <= s.len()) {
        (Seq::empty(), LexEnd::Finished)
    } else {
        let j = skip_white_space(s, i);
        proof {
            lemma_skip_white_space_bounds(s, i);
        }
        if j >= s.len() {
            (Seq::empty(), LexEnd::Finished)
        } else {
            proof {
                lemma_scan_advances(s, j, last);
            }
            match scan(s, j, last) {
                Scan::Emit(t, k) => {
                    let (rest, end) = lex_from(s, k, Some(t));
                    (seq![t] + rest, end)
                },
                Scan::Skip(k) => lex_from(s, k, last),
                Scan::Reject => (Seq::empty(), LexEnd::Rejected(s[j], j)),
                Scan::Crash => (Seq::empty(), LexEnd::Crashed),
            }
        }
    }
}

/// `skip_white_space` stops at a position that is not white space.
pub proof fn lemma_skip_white_space_stops(s: Seq<u8>, i: int)
    requires
        0 <= i <= s.len(),
    ensures
        skip_white_space(s, skip_white_space(s, i)) == skip_white_space(s, i),
    decreases s.len() - i,
{
    if i < s.len() && is_white_space_byte(s[i]) {
        lemma_skip_white_space_stops(s, i + 1);
    }
}

/// White space before a token does not change what is read: reading from a
/// position reads the same as reading from the first byte after it that is
/// not white space.
pub proof fn lemma_lex_from_skip(s: Seq<u8>, i: int, last: Option<SpecToken>)
    requires
        0 <= i <= s.len(),
    ensures
        lex_from(s, skip_white_space(s, i), last) == lex_from(s, i, last),
{
    lemma_skip_white_space_stops(s, i);
    lemma_skip_white_space_bounds(s, i);
}

/// A byte that begins a token: a bracket, an operator, `=`, `<`, `>`, a digit,
/// a letter or `_`.
pub open spec fn begins_token(b: u8) -> bool {
    b == 40 || b == 41 || b == 43 || b == 42 || b == 47 || b == 45 || b == 61 || b == 60 || b == 62
        || is_digit_byte(b) || is_alpha_byte(b) || b == 95
}

/// `skip_white_space` stops at the end or at a byte that is not white space.
proof fn lemma_skip_white_space_lands(s: Seq<u8>, i: int)
    requires
        0 <= i <= s.len(),
    ensures
        skip_white_space(s, i) < s.len() ==> !is_white_space_byte(s[skip_white_space(s, i)]),
    decreases s.len() - i,
{
    if i < s.len() && is_white_space_byte(s[i]) {
        lemma_skip_white_space_lands(s, i + 1);
    }
}

/// Reading stops with an error only at a byte that is neither white space nor
/// the start of a token, and the error names that byte and its position.
pub proof fn lemma_rejected_byte(s: Seq<u8>, i: int, last: Option<SpecToken>)
    requires
        0 <= i <= s.len(),
    ensures
        lex_from(s, i, last).1 matches LexEnd::Rejected(b, j) ==> i <= j < s.len() && s[j] == b
            && !is_white_space_byte(b) && !begins_token(b),
    decreases s.len() - i,
{
    lemma_skip_white_space_bounds(s, i);
    lemma_skip_white_space_lands(s, i);
    let j = skip_white_space(s, i);
    if j < s.len() {
        lemma_scan_advances(s, j, last);
        match scan(s, j, last) {
            Scan::Emit(t, k) => lemma_rejected_byte(s, k, Some(t)),
            Scan::Skip(k) => lemma_rejected_byte(s, k, last),
            _ => {},
        }
    }
}

/// An ASCII letter, digit or `_`.
pub open spec fn word_byte(c: u8) -> bool {
    (65 <= c <= 90) || (97 <= c <= 122) || (48 <= c <= 57) || c == 95
}

/// The keywords and the boolean literals, spelled out.
pub open spec fn reserved_word(w: Seq<u8>) -> bool {
    ||| w == seq![102u8, 110u8]
    ||| w == seq![102u8, 97u8, 108u8, 115u8, 101u8]
    ||| w == seq![108u8, 101u8, 116u8, 114u8, 101u8, 99u8]
    ||| w == seq![108u8, 101u8, 116u8]
    ||| w == seq![101u8, 108u8, 115u8, 101u8]
    ||| w == seq![116u8, 104u8, 101u8, 110u8]
    ||| w == seq![116u8, 114u8, 117u8, 101u8]
    ||| w == seq![105u8, 102u8]
    ||| w == seq![105u8, 110u8]
}

proof fn lemma_ident_end_word(s: Seq<u8>, i: int)
    requires
        0 <= i <= s.len(),
        forall|k: int| 0 <= k < s.len() ==> word_byte(#[trigger] s[k]),
    ensures
        ident_end(s, i) == s.len(),
    decreases s.len() - i,
{
    if i < s.len() {
        assert(word_byte(s[i]));
        lemma_ident_end_word(s, i + 1);
    }
}

proof fn lemma_word_not_keyword(s: Seq<u8>, w: Seq<u8>)
    requires
        forall|k: int| 0 <= k < s.len() ==> word_byte(#[trigger] s[k]),
        s != w,
    ensures
        !keyword_at(s, 0, w),
{
    if keyword_at(s, 0, w) {
        if w.len() == s.len() {
            assert(s.subrange(0, s.len() as int) =~= s);
        } else {
            assert(word_byte(s[w.len() as int]));
        }
    }
}

/// A word that starts with a letter, continues with letters, digits and `_`,
/// and is no keyword, is read as exactly one identifier spelling the whole
/// word: an identifier takes every letter, digit and `_` that follows it.
pub proof fn lemma_word_is_one_identifier(s: Seq<u8>, last: Option<SpecToken>)
    requires
        s.len() > 0,
        (65 <= s[0] <= 90) || (97 <= s[0] <= 122),
        forall|k: int| 0 <= k < s.len() ==> word_byte(#[trigger] s[k]),
        !reserved_word(s),
    ensures
        lex_from(s, 0, last)
            == (seq![Token::<Seq<char>>::Identifier(s.map_values(|b: u8| b as char))], LexEnd::Finished),
{
    lemma_ident_end_word(s, 1);
    lemma_word_not_keyword(s, seq![102u8, 110u8]);
    lemma_word_not_keyword(s, seq![102u8, 97u8, 108u8, 115u8, 101u8]);
    lemma_word_not_keyword(s, seq![108u8, 101u8, 116u8, 114u8, 101u8, 99u8]);
    lemma_word_not_keyword(s, seq![108u8, 101u8, 116u8]);
    lemma_word_not_keyword(s, seq![101u8, 108u8, 115u8, 101u8]);
    lemma_word_not_keyword(s, seq![116u8, 104u8, 101u8, 110u8]);
    lemma_word_not_keyword(s, seq![116u8, 114u8, 117u8, 101u8]);
    lemma_word_not_keyword(s, seq![105u8, 102u8]);
    lemma_word_not_keyword(s, seq![105u8, 110u8]);
    assert(skip_white_space(s, 0) == 0);
    assert(s.subrange(0, s.len() as int) =~= s);
    let t = Token::<Seq<char>>::Identifier(ascii_chars(s));
    assert(scan(s, 0, last) == Scan::Emit(t, s.len() as int));
    assert(lex_from(s, s.len() as int, Some(t)) == (Seq::<SpecToken>::empty(), LexEnd::Finished));
    assert(seq![t] + Seq::<SpecToken>::empty() =~= seq![t]);
    assert(ascii_chars(s) =~= s.map_values(|b: u8| b as char));
}

/// The one-byte tokens: `(`, `)`, `+`, `*` and `/` are read as themselves
/// wherever they stand, and `<`, `>`, `=` alone (not followed by `=`, or `>`
/// after `=`) are the comparisons and the equal sign.
pub proof fn lemma_symbol_tokens(s: Seq<u8>, j: int, last: Option<SpecToken>)
    requires
        0 <= j < s.len(),
    ensures
        s[j] == 40 ==> scan(s, j, last) == Scan::Emit(Token::LParen, j + 1),
        s[j] == 41 ==> scan(s, j, last) == Scan::Emit(Token::RParen, j + 1),
        s[j] == 43 ==> scan(s, j, last) == Scan::Emit(Token::AdditiveOps(AdditiveOps::Add), j + 1),
        s[j] == 42 ==> scan(s, j, last) == Scan::Emit(Token::MultiplicativeOps(MultiplicativeOps::Mul), j + 1),
        s[j] == 47 ==> scan(s, j, last) == Scan::Emit(Token::MultiplicativeOps(MultiplicativeOps::Div), j + 1),
        s[j] == 60 && (j + 1 == s.len() || s[j + 1] != 61)
            ==> scan(s, j, last) == Scan::Emit(Token::BooleanOps(BooleanOps::LessThan), j + 1),
        s[j] == 60 && j + 1 < s.len() && s[j + 1] == 61
            ==> scan(s, j, last) == Scan::Emit(Token::BooleanOps(BooleanOps::LessThanEqualTo), j + 2),
        s[j] == 62 && (j + 1 == s.len() || s[j + 1] != 61)
            ==> scan(s, j, last) == Scan::Emit(Token::BooleanOps(BooleanOps::GreaterThan), j + 1),
        s[j] == 62 && j + 1 < s.len() && s[j + 1] == 61
            ==> scan(s, j, last) == Scan::Emit(Token::BooleanOps(BooleanOps::GreaterThanEqualTo), j + 2),
        s[j] == 61 && j + 1 < s.len() && s[j + 1] == 62 ==> scan(s, j, last) == Scan::Emit(Token::Arrow, j + 2),
        s[j] == 61 && j + 1 < s.len() && s[j + 1] == 61
            ==> scan(s, j, last) == Scan::Emit(Token::BooleanOps(BooleanOps::Equality), j + 2),
        s[j] == 61 && (j + 1 == s.len() || (s[j + 1] != 61 && s[j + 1] != 62))
            ==> scan(s, j, last) == Scan::Emit(Token::EqualSign, j + 1),
{
    if j + 1 < s.len() {
        assert(s.subrange(j, j + 2) =~= seq![s[j], s[j + 1]]);
    }
}

/// A `-` right after a value (a literal, a name or `)`) is a subtraction.
pub proof fn lemma_minus_after_value(s: Seq<u8>, j: int, t: SpecToken)
    requires
        0 <= j < s.len(),
        s[j] == 45,
        t is IntegerLiteral || t is BooleanLiteral || t is Identifier || t is RParen,
    ensures
        scan(s, j, Some(t)) == Scan::Emit(Token::AdditiveOps(AdditiveOps::Sub), j + 1),
{
}

/// A `-` at the start, or after an operator, a keyword, `=`, `=>` or `(`,
/// followed by one digit `d` and then no digit, is the literal `-d`.
pub proof fn lemma_negative_digit(s: Seq<u8>, j: int, last: Option<SpecToken>)
    requires
        0 <= j,
        j + 1 < s.len(),
        s[j] == 45,
        48 <= s[j + 1] <= 57,
        j + 2 == s.len() || !(48 <= s[j + 2] <= 57),
        last is None || last->Some_0 is Keyword || last->Some_0 is EqualSign || last->Some_0 is AdditiveOps
            || last->Some_0 is MultiplicativeOps || last->Some_0 is BooleanOps || last->Some_0 is Arrow
            || last->Some_0 is LParen,
    ensures
        scan(s, j, last) == Scan::Emit(Token::IntegerLiteral((48 - s[j + 1]) as i64), j + 2),
{
    assert(digits_end(s, j + 2) == j + 2);
    assert(digits_end(s, j + 1) == j + 2);
    let ds = s.subrange(j + 1, j + 2);
    assert(ds.drop_last() =~= Seq::<u8>::empty());
    assert(ds.last() == s[j + 1]);
    assert(decimal_value(ds.drop_last()) == 0);
    assert(decimal_value(ds) == 10 * decimal_value(ds.drop_last()) + (ds.last() - 48));
    assert(decimal_value(ds) == s[j + 1] - 48);
}

/// Space, newline, carriage return and tab are skipped; any other byte stops
/// the skipping.
pub proof fn lemma_white_space_bytes(s: Seq<u8>, i: int)
    requires
        0 <= i < s.len(),
    ensures
        (s[i] == 32 || s[i] == 10 || s[i] == 13 || s[i] == 9) ==> skip_white_space(s, i) == skip_white_space(s, i + 1),
        !(s[i] == 32 || s[i] == 10 || s[i] == 13 || s[i] == 9) ==> skip_white_space(s, i) == i,
{
}

/// The end of the input, or a byte that cannot continue a word, stands at `k`.
pub open spec fn word_ends(s: Seq<u8>, k: int) -> bool {
    k == s.len() || (0 <= k < s.len() && !word_byte(s[k]))
}

proof fn lemma_keyword_here(s: Seq<u8>, j: int, w: Seq<u8>)
    requires
        0 <= j,
        j + w.len() <= s.len(),
        s.subrange(j, j + w.len()) == w,
        word_ends(s, j + w.len()),
    ensures
        keyword_at(s, j, w),
{
}

proof fn lemma_keyword_not_here(s: Seq<u8>, j: int, w: Seq<u8>, k: int)
    requires
        0 <= j,
        0 <= k < w.len(),
        j + k < s.len(),
        s[j + k] != w[k],
    ensures
        !keyword_at(s, j, w),
{
    if keyword_at(s, j, w) {
        assert(s.subrange(j, j + w.len())[k] == s[j + k]);
    }
}

/// Each keyword and boolean literal, spelled out at `j` and followed by the
/// end or by a byte that cannot continue a word, is read as its token.
pub proof fn lemma_keyword_tokens(s: Seq<u8>, j: int, last: Option<SpecToken>)
    requires
        0 <= j < s.len(),
    ensures
        ({
            let w = seq![102u8, 110u8];
            j + 2 <= s.len() && s.subrange(j, j + 2) == w && word_ends(s, j + 2)
                ==> scan(s, j, last) == Scan::Emit(Token::Keyword(Keyword::Fn), j + 2)
        }),
        ({
            let w = seq![102u8, 97u8, 108u8, 115u8, 101u8];
            j + 5 <= s.len() && s.subrange(j, j + 5) == w && word_ends(s, j + 5)
                ==> scan(s, j, last) == Scan::Emit(Token::BooleanLiteral(false), j + 5)
        }),
        ({
            let w = seq![108u8, 101u8, 116u8, 114u8, 101u8, 99u8];
            j + 6 <= s.len() && s.subrange(j, j + 6) == w && word_ends(s, j + 6)
                ==> scan(s, j, last) == Scan::Emit(Token::Keyword(Keyword::LetRec), j + 6)
        }),
        ({
            let w = seq![108u8, 101u8, 116u8];
            j + 3 <= s.len() && s.subrange(j, j + 3) == w && word_ends(s, j + 3)
                ==> scan(s, j, last) == Scan::Emit(Token::Keyword(Keyword::Let), j + 3)
        }),
        ({
            let w = seq![101u8, 108u8, 115u8, 101u8];
            j + 4 <= s.len() && s.subrange(j, j + 4) == w && word_ends(s, j + 4)
                ==> scan(s, j, last) == Scan::Emit(Token::Keyword(Keyword::Else), j + 4)
        }),
        ({
            let w = seq![116u8, 104u8, 101u8, 110u8];
            j + 4 <= s.len() && s.subrange(j, j + 4) == w && word_ends(s, j + 4)
                ==> scan(s, j, last) == Scan::Emit(Token::Keyword(Keyword::Then), j + 4)
        }),
        ({
            let w = seq![116u8, 114u8, 117u8, 101u8];
            j + 4 <= s.len() && s.subrange(j, j + 4) == w && word_ends(s, j + 4)
                ==> scan(s, j, last) == Scan::Emit(Token::BooleanLiteral(true), j + 4)
        }),
        ({
            let w = seq![105u8, 102u8];
            j + 2 <= s.len() && s.subrange(j, j + 2) == w && word_ends(s, j + 2)
                ==> scan(s, j, last) == Scan::Emit(Token::Keyword(Keyword::If), j + 2)
        }),
        ({
            let w = seq![105u8, 110u8];
            j + 2 <= s.len() && s.subrange(j, j + 2) == w && word_ends(s, j + 2)
                ==> scan(s, j, last) == Scan::Emit(Token::Keyword(Keyword::In), j + 2)
        }),
{
    let fn_w = seq![102u8, 110u8];
    let false_w = seq![102u8, 97u8, 108u8, 115u8, 101u8];
    let letrec_w = seq![108u8, 101u8, 116u8, 114u8, 101u8, 99u8];
    let let_w = seq![108u8, 101u8, 116u8];
    let else_w = seq![101u8, 108u8, 115u8, 101u8];
    let then_w = seq![116u8, 104u8, 101u8, 110u8];
    let true_w = seq![116u8, 114u8, 117u8, 101u8];
    let if_w = seq![105u8, 102u8];
    let in_w = seq![105u8, 110u8];
    if j + 2 <= s.len() && s.subrange(j, j + 2) == fn_w && word_ends(s, j + 2) {
        assert(s[j] == s.subrange(j, j + 2)[0]);
        lemma_keyword_here(s, j, fn_w);
    }
    if j + 5 <= s.len() && s.subrange(j, j + 5) == false_w && word_ends(s, j + 5) {
        assert(s[j] == s.subrange(j, j + 5)[0]);
        assert(s[j + 1] == s.subrange(j, j + 5)[1]);
        lemma_keyword_not_here(s, j, fn_w, 1);
        lemma_keyword_here(s, j, false_w);
    }
    if j + 6 <= s.len() && s.subrange(j, j + 6) == letrec_w && word_ends(s, j + 6) {
        assert(s[j] == s.subrange(j, j + 6)[0]);
        lemma_keyword_here(s, j, letrec_w);
    }
    if j + 3 <= s.len() && s.subrange(j, j + 3) == let_w && word_ends(s, j + 3) {
        assert(s[j] == s.subrange(j, j + 3)[0]);
        if j + 3 < s.len() {
            lemma_keyword_not_here(s, j, letrec_w, 3);
        }
        lemma_keyword_here(s, j, let_w);
    }
    if j + 4 <= s.len() && s.subrange(j, j + 4) == else_w && word_ends(s, j + 4) {
        assert(s[j] == s.subrange(j, j + 4)[0]);
        lemma_keyword_here(s, j, else_w);
    }
    if j + 4 <= s.len() && s.subrange(j, j + 4) == then_w && word_ends(s, j + 4) {
        assert(s[j] == s.subrange(j, j + 4)[0]);
        lemma_keyword_here(s, j, then_w);
    }
    if j + 4 <= s.len() && s.subrange(j, j + 4) == true_w && word_ends(s, j + 4) {
        assert(s[j] == s.subrange(j, j + 4)[0]);
        assert(s[j + 1] == s.subrange(j, j + 4)[1]);
        lemma_keyword_not_here(s, j, then_w, 1);
        lemma_keyword_here(s, j, true_w);
    }
    if j + 2 <= s.len() && s.subrange(j, j + 2) == if_w && word_ends(s, j + 2) {
        assert(s[j] == s.subrange(j, j + 2)[0]);
        lemma_keyword_here(s, j, if_w);
    }
    if j + 2 <= s.len() && s.subrange(j, j + 2) == in_w && word_ends(s, j + 2) {
        assert(s[j] == s.subrange(j, j + 2)[0]);
        assert(s[j + 1] == s.subrange(j, j + 2)[1]);
        lemma_keyword_not_here(s, j, if_w, 1);
        lemma_keyword_here(s, j, in_w);
    }
}

proof fn lemma_digits_end_all(s: Seq<u8>, i: int)
    requires
        0 <= i <= s.len(),
        forall|k: int| 0 <= k < s.len() ==> 48 <= #[trigger] s[k] <= 57,
    ensures
        digits_end(s, i) == s.len(),
    decreases s.len() - i,
{
    if i < s.len() {
        assert(48 <= s[i] <= 57);
        lemma_digits_end_all(s, i + 1);
    }
}

/// A lone digit is the number it names.
pub proof fn lemma_one_digit(d: u8, last: Option<SpecToken>)
    requires
        48 <= d <= 57,
    ensures
        scan(seq![d], 0, last) == Scan::Emit(Token::IntegerLiteral((d - 48) as i64), 1),
{
    let s = seq![d];
    assert(digits_end(s, 1) == 1);
    assert(s.subrange(0, 1) =~= s);
    assert(s.drop_last() =~= Seq::<u8>::empty());
    assert(decimal_value(s.drop_last()) == 0);
    assert(decimal_value(s) == d - 48);
}

/// Digits are read in decimal: a number written with one more digit `d` at
/// the end is ten times the number before, plus `d`.
pub proof fn lemma_digit_appended(ds: Seq<u8>, d: u8, last: Option<SpecToken>)
    requires
        ds.len() > 0,
        forall|k: int| 0 <= k < ds.len() ==> 48 <= #[trigger] ds[k] <= 57,
        48 <= d <= 57,
    ensures
        scan(ds.push(d), 0, last) matches Scan::Emit(Token::IntegerLiteral(b), e)
            ==> (e == ds.len() + 1 && (scan(ds, 0, last) matches Scan::Emit(Token::IntegerLiteral(a), f)
                && f == ds.len() && b == 10 * a + (d - 48))),
{
    let s = ds.push(d);
    assert forall|k: int| 0 <= k < s.len() implies 48 <= #[trigger] s[k] <= 57 by {
        if k < ds.len() {
            assert(s[k] == ds[k]);
        }
    }
    lemma_digits_end_all(s, 1);
    lemma_digits_end_all(ds, 1);
    assert(s[0] == ds[0]);
    assert(s.subrange(0, s.len() as int) =~= s);
    assert(ds.subrange(0, ds.len() as int) =~= ds);
    assert(s.drop_last() =~= ds);
    assert(decimal_value(s) == 10 * decimal_value(ds) + (d - 48));
    assert forall|k: int| 0 <= k < ds.len() implies is_digit_byte(#[trigger] ds[k]) by {}
    lemma_decimal_nonneg_all(ds);
}

proof fn lemma_decimal_nonneg_all(ds: Seq<u8>)
    requires
        forall|k: int| 0 <= k < ds.len() ==> 48 <= #[trigger] ds[k] <= 57,
    ensures
        decimal_value(ds) >= 0,
    decreases ds.len(),
{
    if ds.len() > 0 {
        assert forall|k: int| 0 <= k < ds.drop_last().len() implies 48 <= #[trigger] ds.drop_last()[k] <= 57 by {
            assert(ds.drop_last()[k] == ds[k]);
        }
        lemma_decimal_nonneg_all(ds.drop_last());
        assert(48 <= ds[ds.len() - 1] <= 57);
    }
}

/// The last of a sequence of tokens.
pub open spec fn last_token(ts: Seq<SpecToken>) -> Option<SpecToken> {
    if ts.len() == 0 { None } else { Some(ts.last()) }
}

} // verus!
