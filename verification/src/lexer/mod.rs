pub mod types;
pub mod scan;

use vstd::prelude::*;
use crate::lexer::types::{Token, SpecToken, Keyword, AdditiveOps, MultiplicativeOps, BooleanOps, tokens_view};
use crate::lexer::scan::{
    is_white_space_byte, is_digit_byte, is_alpha_byte, is_ident_byte, skip_white_space, ident_end, digits_end,
    decimal_value, symbol_at, keyword_at, Scan, scan, scan_number, scan_identifier, ascii_chars, expects_operand,
    lex_from, last_token, LexEnd, lemma_skip_white_space_bounds, lemma_ident_end_bounds, lemma_digits_end_bounds,
    lemma_scan_advances, lemma_skip_white_space_stops, lemma_lex_from_skip,
};
use crate::text::{push_char, push_decimal, decimal_text};
use vstd::string::StringExecFns;
use vstd::string::StringSliceAdditionalSpecFns;

verus! {

/// A byte that begins no token, and where it stands.
#[derive(Debug, Clone, Copy)]
pub struct LexError {
    pub byte: u8,
    pub position: usize,
}

impl LexError {
    /// The report of this error, as the lexer words it.
    pub open spec fn text(&self) -> Seq<char> {
        "Lex Error: Unexpected character "@ + decimal_text(self.byte as nat) + " @ "@
            + decimal_text(self.position as nat) + "."@
    }

    /// `Lex Error: Unexpected character <byte> @ <position>.`, with both numbers in decimal.
    pub fn message(&self) -> (r: String)
        ensures
            r@ == self.text(),
    {
        let mut m = String::from_str("Lex Error: Unexpected character ");
        push_decimal(&mut m, self.byte as usize);
        m.append(" @ ");
        push_decimal(&mut m, self.position);
        m.append(".");
        m
    }
}

/// Reads the bytes of a source text into tokens.
pub struct Lexer<'a> {
    pub tokens: Vec<Token>,
    char_stream: &'a [u8],
    max_idx: usize,
    curr_idx: usize,
}

/// Decimal values are not negative.
proof fn lemma_decimal_value_nonneg(ds: Seq<u8>)
    requires
        forall|k: int| 0 <= k < ds.len() ==> is_digit_byte(#[trigger] ds[k]),
    ensures
        decimal_value(ds) >= 0,
    decreases ds.len(),
{
    if ds.len() > 0 {
        lemma_decimal_value_nonneg(ds.drop_last());
    }
}

/// Dropping trailing digits does not increase a decimal value.
proof fn lemma_decimal_value_prefix(ds: Seq<u8>, k: int)
    requires
        0 <= k <= ds.len(),
        forall|m: int| 0 <= m < ds.len() ==> is_digit_byte(#[trigger] ds[m]),
    ensures
        0 <= decimal_value(ds.take(k)) <= decimal_value(ds),
    decreases ds.len(),
{
    if k == ds.len() {
        assert(ds.take(k) =~= ds);
        lemma_decimal_value_nonneg(ds);
    } else {
        lemma_decimal_value_prefix(ds.drop_last(), k);
        assert(ds.drop_last().take(k) =~= ds.take(k));
        lemma_decimal_value_nonneg(ds.drop_last());
    }
}

/// The bytes from `i` up to `digits_end(s, i)` are digits.
proof fn lemma_digits_end_digits(s: Seq<u8>, i: int, m: int)
    requires
        0 <= i <= m < digits_end(s, i),
        i <= s.len(),
    ensures
        m < s.len() && is_digit_byte(s[m]),
    decreases s.len() - i,
{
    if i < s.len() && is_digit_byte(s[i]) {
        if m > i {
            lemma_digits_end_digits(s, i + 1, m);
        }
    }
}

fn is_white_space(c: u8) -> (r: bool)
    ensures
        r == is_white_space_byte(c),
{
    c == 32 || c == 10 || c == 13 || c == 9
}

fn is_digit(c: u8) -> (r: bool)
    ensures
        r == is_digit_byte(c),
{
    48 <= c && c <= 57
}

fn is_ident_char(c: u8) -> (r: bool)
    ensures
        r == is_ident_byte(c),
{
    (65 <= c && c <= 90) || (97 <= c && c <= 122) || (48 <= c && c <= 57) || c == 95
}

/// Whether a `-` after `last_token` begins a negative number.
fn expecting_numeric(last_token: &Token) -> (r: bool)
    ensures
        r == expects_operand(last_token@),
{
    match last_token {
        Token::Keyword(_) | Token::EqualSign | Token::AdditiveOps(_) | Token::MultiplicativeOps(_)
        | Token::BooleanOps(_) | Token::Arrow | Token::LParen => true,
        _ => false,
    }
}

impl<'a> Lexer<'a> {
    /// The bytes being read.
    pub closed spec fn input(&self) -> Seq<u8> {
        self.char_stream@
    }

    /// The position of the next byte to read.
    pub closed spec fn position(&self) -> int {
        self.curr_idx as int
    }

    /// The tokens read so far.
    pub closed spec fn token_views(&self) -> Seq<SpecToken> {
        tokens_view(self.tokens@)
    }

    pub closed spec fn wf(&self) -> bool {
        &&& 0 < self.char_stream@.len() <= isize::MAX
        &&& self.max_idx == self.char_stream@.len() - 1
        &&& self.curr_idx <= self.char_stream@.len()
    }

    /// A lexer at the start of `raw_string`, with no tokens yet.
    pub fn new(raw_string: &'a str) -> (r: Self)
        requires
            0 < raw_string.spec_bytes().len() <= isize::MAX,
        ensures
            r.wf(),
            r.input() == raw_string.spec_bytes(),
            r.position() == 0,
            r.token_views() == Seq::<SpecToken>::empty(),
    {
        let r = Lexer {
            char_stream: raw_string.as_bytes(),
            curr_idx: 0,
            tokens: Vec::new(),
            max_idx: raw_string.len() - 1,
        };
        assert(tokens_view(r.tokens@) =~= Seq::<SpecToken>::empty());
        r
    }

    fn append_token(&mut self, new_token: Token, next_idx: usize)
        ensures
            final(self).tokens@ == old(self).tokens@.push(new_token),
            final(self).curr_idx == next_idx,
            final(self).char_stream == old(self).char_stream,
            final(self).max_idx == old(self).max_idx,
    {
        self.tokens.push(new_token);
        self.curr_idx = next_idx;
    }

    fn skip_whitespace(&mut self)
        requires
            old(self).wf(),
        ensures
            final(self).wf(),
            final(self).tokens == old(self).tokens,
            final(self).char_stream == old(self).char_stream,
            final(self).curr_idx == skip_white_space(old(self).char_stream@, old(self).curr_idx as int),
            final(self).curr_idx < final(self).char_stream@.len()
                ==> !is_white_space_byte(final(self).char_stream@[final(self).curr_idx as int]),
    {
        let ghost s = self.char_stream@;
        let ghost start = self.curr_idx as int;
        let ghost toks = self.tokens;
        while self.curr_idx <= self.max_idx && is_white_space(self.char_stream[self.curr_idx])
            invariant
                self.wf(),
                s == self.char_stream@,
                toks == self.tokens,
                skip_white_space(s, self.curr_idx as int) == skip_white_space(s, start),
            decreases self.char_stream@.len() - self.curr_idx,
        {
            self.curr_idx += 1;
        }
    }

    /// Whether the bytes of `word` stand at the current position.
    fn matches_at(&self, word: &[u8]) -> (r: bool)
        requires
            self.wf(),
            self.curr_idx + word@.len() <= self.char_stream@.len(),
        ensures
            r == (self.char_stream@.subrange(self.curr_idx as int, self.curr_idx + word@.len()) == word@),
    {
        let ghost sub = self.char_stream@.subrange(self.curr_idx as int, self.curr_idx + word@.len());
        let n = word.len();
        let mut k: usize = 0;
        while k < n
            invariant
                self.wf(),
                n == word@.len(),
                k <= n,
                self.curr_idx + n <= self.char_stream@.len(),
                sub == self.char_stream@.subrange(self.curr_idx as int, self.curr_idx + n),
                forall|m: int| 0 <= m < k ==> sub[m] == word@[m],
            decreases n - k,
        {
            if self.char_stream[self.curr_idx + k] != word[k] {
                assert(sub[k as int] != word@[k as int]);
                return false;
            }
            k += 1;
        }
        assert(sub =~= word@);
        true
    }

    /// Reads the keyword `keyword` if it stands at the current position followed
    /// by the end or by a byte that cannot continue an identifier.
    fn try_keyword(&mut self, keyword: &[u8], token: Token) -> (r: bool)
        requires
            old(self).wf(),
            0 < keyword@.len() <= 6,
        ensures
            final(self).wf(),
            final(self).char_stream == old(self).char_stream,
            r == keyword_at(old(self).char_stream@, old(self).curr_idx as int, keyword@),
            r ==> final(self).tokens@ == old(self).tokens@.push(token)
                && final(self).curr_idx == old(self).curr_idx + keyword@.len(),
            !r ==> final(self).tokens == old(self).tokens && final(self).curr_idx == old(self).curr_idx,
    {
        let keyword_length = keyword.len();
        let char_length = self.char_stream.len();
        let end_idx = self.curr_idx + keyword_length;
        if end_idx > char_length {
            return false;
        }
        let matches = self.matches_at(keyword);
        if end_idx == char_length || !is_ident_char(self.char_stream[end_idx]) {
            if matches {
                self.append_token(token, end_idx);
            }
            return matches;
        }
        false
    }

    /// Reads the symbol `symbol` if it stands at the current position.
    fn try_symbol(&mut self, symbol: &[u8], token: Token) -> (r: bool)
        requires
            old(self).wf(),
            0 < symbol@.len() <= 2,
        ensures
            final(self).wf(),
            final(self).char_stream == old(self).char_stream,
            r == symbol_at(old(self).char_stream@, old(self).curr_idx as int, symbol@),
            r ==> final(self).tokens@ == old(self).tokens@.push(token)
                && final(self).curr_idx == old(self).curr_idx + symbol@.len(),
            !r ==> final(self).tokens == old(self).tokens && final(self).curr_idx == old(self).curr_idx,
    {
        let keyword_length = symbol.len();
        let char_length = self.char_stream.len();
        let end_idx = self.curr_idx + keyword_length;
        if end_idx > char_length {
            return false;
        }
        let matches = self.matches_at(symbol);
        if matches {
            self.append_token(token, end_idx);
        }
        matches
    }

    /// Reads an identifier: the byte at the current position and the letters,
    /// digits and `_` after it. A lone `_` is read but yields no token.
    fn try_identifier(&mut self) -> (r: bool)
        requires
            old(self).wf(),
            old(self).curr_idx < old(self).char_stream@.len(),
        ensures
            final(self).wf(),
            final(self).char_stream == old(self).char_stream,
            match scan_identifier(old(self).char_stream@, old(self).curr_idx as int) {
                Scan::Emit(t, e) => r && tokens_view(final(self).tokens@) == tokens_view(old(self).tokens@).push(t)
                    && final(self).curr_idx == e,
                Scan::Skip(e) => !r && final(self).tokens == old(self).tokens && final(self).curr_idx == e,
                _ => false,
            },
    {
        let ghost s = self.char_stream@;
        let ghost toks = self.tokens;
        let start = self.curr_idx;
        let mut ident = String::new();
        push_char(&mut ident, self.char_stream[start] as char);
        self.curr_idx += 1;
        assert(ident@ =~= ascii_chars(s.subrange(start as int, start + 1)));
        while self.curr_idx <= self.max_idx && is_ident_char(self.char_stream[self.curr_idx])
            invariant
                self.wf(),
                s == self.char_stream@,
                start < self.curr_idx <= s.len(),
                ident@ == ascii_chars(s.subrange(start as int, self.curr_idx as int)),
                ident_end(s, self.curr_idx as int) == ident_end(s, start + 1),
                toks == self.tokens,
            decreases s.len() - self.curr_idx,
        {
            push_char(&mut ident, self.char_stream[self.curr_idx] as char);
            self.curr_idx += 1;
            assert(ident@ =~= ascii_chars(s.subrange(start as int, self.curr_idx as int)));
        }
        assert(ident_end(s, self.curr_idx as int) == self.curr_idx);
        if self.curr_idx == start + 1 && self.char_stream[start] == 95 {
            return false;
        }
        let ghost before = tokens_view(self.tokens@);
        self.tokens.push(Token::Identifier(ident));
        assert(tokens_view(self.tokens@) =~= before.push(Token::Identifier(ident@)));
        true
    }

    /// Reads a number: the byte at the current position (a digit, or `-`) and
    /// the digits after it.
    fn try_number(&mut self) -> (r: bool)
        requires
            old(self).wf(),
            old(self).curr_idx < old(self).char_stream@.len(),
            is_digit_byte(old(self).char_stream@[old(self).curr_idx as int]) || old(self).char_stream@[old(self).curr_idx as int] == 45,
            !(scan_number(old(self).char_stream@, old(self).curr_idx as int) is Crash),
        ensures
            final(self).wf(),
            final(self).char_stream == old(self).char_stream,
            r,
            scan_number(old(self).char_stream@, old(self).curr_idx as int) matches Scan::Emit(t, e)
                && tokens_view(final(self).tokens@) == tokens_view(old(self).tokens@).push(t)
                && final(self).curr_idx == e,
    {
        let ghost s = self.char_stream@;
        let ghost toks = self.tokens;
        let start = self.curr_idx;
        let negative = self.char_stream[start] == 45;
        let ghost first: int = if negative { start + 1 } else { start as int };
        let ghost e = digits_end(s, start + 1);
        proof {
            lemma_digits_end_bounds(s, start + 1);
            assert forall|m: int| 0 <= m < s.subrange(first, e).len() implies is_digit_byte(#[trigger] s.subrange(first, e)[m]) by {
                if first + m > start {
                    lemma_digits_end_digits(s, start + 1, first + m);
                }
            }
            lemma_decimal_value_prefix(s.subrange(first, e), 0);
        }
        let ghost total = decimal_value(s.subrange(first, e));
        let mut value: i64 = if negative { 0 } else { (self.char_stream[start] - 48) as i64 };
        self.curr_idx += 1;
        proof {
            if !negative {
                let one = s.subrange(start as int, start + 1);
                assert(one.drop_last() =~= Seq::<u8>::empty());
                assert(one.last() == s[start as int]);
                lemma_decimal_value_prefix(s.subrange(first, e), 1);
                assert(s.subrange(first, e).take(1) =~= one);
                assert(decimal_value(one.drop_last()) == 0);
                assert(decimal_value(one) == s[start as int] - 48);
            } else {
                assert(s.subrange(first, start + 1) =~= Seq::<u8>::empty());
                assert(decimal_value(s.subrange(first, start + 1)) == 0);
            }
        }
        while self.curr_idx <= self.max_idx && is_digit(self.char_stream[self.curr_idx])
            invariant
                self.wf(),
                s == self.char_stream@,
                start < self.curr_idx <= e <= s.len(),
                e == digits_end(s, start + 1),
                digits_end(s, self.curr_idx as int) == e,
                first == if negative { start + 1 } else { start as int },
                negative == (s[start as int] == 45),
                first <= self.curr_idx,
                total == decimal_value(s.subrange(first, e)),
                forall|m: int| 0 <= m < s.subrange(first, e).len() ==> is_digit_byte(#[trigger] s.subrange(first, e)[m]),
                value == if negative { -decimal_value(s.subrange(first, self.curr_idx as int)) }
                    else { decimal_value(s.subrange(first, self.curr_idx as int)) },
                !negative ==> total <= i64::MAX,
                negative ==> -total >= i64::MIN,
                toks == self.tokens,
            decreases s.len() - self.curr_idx,
        {
            let d = (self.char_stream[self.curr_idx] - 48) as i64;
            let ghost next = self.curr_idx + 1;
            proof {
                lemma_digits_end_bounds(s, next);
                let pre = s.subrange(first, next);
                assert(pre.drop_last() =~= s.subrange(first, self.curr_idx as int));
                assert(pre.last() == s[self.curr_idx as int]);
                lemma_decimal_value_prefix(s.subrange(first, e), next - first);
                assert(s.subrange(first, e).take(next - first) =~= pre);
                lemma_decimal_value_nonneg(s.subrange(first, self.curr_idx as int));
            }
            if negative {
                value = value * 10 - d;
            } else {
                value = value * 10 + d;
            }
            self.curr_idx += 1;
        }
        assert(digits_end(s, self.curr_idx as int) == self.curr_idx);
        let ghost before = tokens_view(self.tokens@);
        self.tokens.push(Token::IntegerLiteral(value));
        assert(tokens_view(self.tokens@) =~= before.push(Token::IntegerLiteral(value)));
        true
    }

    /// Reads the token at the current position, which is not white space:
    /// what `scan` says of that position, given the last token so far.
    fn read_token(&mut self) -> (r: Result<(), LexError>)
        requires
            old(self).wf(),
            old(self).curr_idx < old(self).char_stream@.len(),
            !is_white_space_byte(old(self).char_stream@[old(self).curr_idx as int]),
            !(scan(old(self).char_stream@, old(self).curr_idx as int, last_token(old(self).token_views())) is Crash),
        ensures
            final(self).wf(),
            final(self).char_stream == old(self).char_stream,
            match scan(old(self).char_stream@, old(self).curr_idx as int, last_token(old(self).token_views())) {
                Scan::Emit(t, k) => r is Ok && final(self).token_views() == old(self).token_views().push(t)
                    && final(self).curr_idx == k,
                Scan::Skip(k) => r is Ok && final(self).token_views() == old(self).token_views()
                    && final(self).curr_idx == k,
                Scan::Reject => r == Err::<(), LexError>(LexError {
                    byte: old(self).char_stream@[old(self).curr_idx as int],
                    position: old(self).curr_idx,
                }) && final(self).token_views() == old(self).token_views() && final(self).curr_idx == old(self).curr_idx,
                Scan::Crash => false,
            },
    {
        let ghost s = self.char_stream@;
        let ghost before = self.token_views();
        let j = self.curr_idx;
        let c = self.char_stream[j];
        if c == 40 {
            self.append_token(Token::LParen, j + 1);
        } else if c == 41 {
            self.append_token(Token::RParen, j + 1);
        } else if c == 43 {
            self.append_token(Token::AdditiveOps(AdditiveOps::Add), j + 1);
        } else if c == 42 {
            self.append_token(Token::MultiplicativeOps(MultiplicativeOps::Mul), j + 1);
        } else if c == 47 {
            self.append_token(Token::MultiplicativeOps(MultiplicativeOps::Div), j + 1);
        } else if c == 45 {
            let n = self.tokens.len();
            let is_negative_number = if n == 0 {
                true
            } else {
                expecting_numeric(&self.tokens[n - 1])
            };
            if is_negative_number {
                self.try_number();
            } else {
                self.append_token(Token::AdditiveOps(AdditiveOps::Sub), j + 1);
            }
        } else if c == 61 {
            let arrow: [u8; 2] = [61, 62];
            let equality: [u8; 2] = [61, 61];
            assert(arrow@ =~= seq![61u8, 62u8]);
            assert(equality@ =~= seq![61u8, 61u8]);
            if !self.try_symbol(arrow.as_slice(), Token::Arrow) {
                if !self.try_symbol(equality.as_slice(), Token::BooleanOps(BooleanOps::Equality)) {
                    self.append_token(Token::EqualSign, j + 1);
                }
            }
        } else if c == 60 {
            let le: [u8; 2] = [60, 61];
            assert(le@ =~= seq![60u8, 61u8]);
            if !self.try_symbol(le.as_slice(), Token::BooleanOps(BooleanOps::LessThanEqualTo)) {
                self.append_token(Token::BooleanOps(BooleanOps::LessThan), j + 1);
            }
        } else if c == 62 {
            let ge: [u8; 2] = [62, 61];
            assert(ge@ =~= seq![62u8, 61u8]);
            if !self.try_symbol(ge.as_slice(), Token::BooleanOps(BooleanOps::GreaterThanEqualTo)) {
                self.append_token(Token::BooleanOps(BooleanOps::GreaterThan), j + 1);
            }
        } else if c == 102 {
            let kw_fn: [u8; 2] = [102, 110];
            let kw_false: [u8; 5] = [102, 97, 108, 115, 101];
            assert(kw_fn@ =~= seq![102u8, 110u8]);
            assert(kw_false@ =~= seq![102u8, 97u8, 108u8, 115u8, 101u8]);
            if !self.try_keyword(kw_fn.as_slice(), Token::Keyword(Keyword::Fn)) {
                if !self.try_keyword(kw_false.as_slice(), Token::BooleanLiteral(false)) {
                    self.try_identifier();
                }
            }
        } else if c == 108 {
            let kw_letrec: [u8; 6] = [108, 101, 116, 114, 101, 99];
            let kw_let: [u8; 3] = [108, 101, 116];
            assert(kw_letrec@ =~= seq![108u8, 101u8, 116u8, 114u8, 101u8, 99u8]);
            assert(kw_let@ =~= seq![108u8, 101u8, 116u8]);
            if !self.try_keyword(kw_letrec.as_slice(), Token::Keyword(Keyword::LetRec)) {
                if !self.try_keyword(kw_let.as_slice(), Token::Keyword(Keyword::Let)) {
                    self.try_identifier();
                }
            }
        } else if c == 101 {
            let kw_else: [u8; 4] = [101, 108, 115, 101];
            assert(kw_else@ =~= seq![101u8, 108u8, 115u8, 101u8]);
            if !self.try_keyword(kw_else.as_slice(), Token::Keyword(Keyword::Else)) {
                self.try_identifier();
            }
        } else if c == 116 {
            let kw_then: [u8; 4] = [116, 104, 101, 110];
            let kw_true: [u8; 4] = [116, 114, 117, 101];
            assert(kw_then@ =~= seq![116u8, 104u8, 101u8, 110u8]);
            assert(kw_true@ =~= seq![116u8, 114u8, 117u8, 101u8]);
            if !self.try_keyword(kw_then.as_slice(), Token::Keyword(Keyword::Then)) {
                if !self.try_keyword(kw_true.as_slice(), Token::BooleanLiteral(true)) {
                    self.try_identifier();
                }
            }
        } else if c == 105 {
            let kw_if: [u8; 2] = [105, 102];
            let kw_in: [u8; 2] = [105, 110];
            assert(kw_if@ =~= seq![105u8, 102u8]);
            assert(kw_in@ =~= seq![105u8, 110u8]);
            if !self.try_keyword(kw_if.as_slice(), Token::Keyword(Keyword::If)) {
                if !self.try_keyword(kw_in.as_slice(), Token::Keyword(Keyword::In)) {
                    self.try_identifier();
                }
            }
        } else if is_digit(c) {
            self.try_number();
        } else if (65 <= c && c <= 90) || (97 <= c && c <= 122) || c == 95 {
            self.try_identifier();
        } else {
            return Err(LexError { byte: c, position: j });
        }
        Ok(())
    }

    /// Reads the rest of the input into tokens, appended to those read so far.
    /// Stops at the first byte that begins no token and reports it.
    pub fn tokenize(&mut self) -> (r: Result<&Vec<Token>, LexError>)
        requires
            old(self).wf(),
            !(lex_from(old(self).input(), old(self).position(), last_token(old(self).token_views())).1 is Crashed),
        ensures
            final(self).wf(),
            final(self).input() == old(self).input(),
            final(self).token_views() == old(self).token_views()
                + lex_from(old(self).input(), old(self).position(), last_token(old(self).token_views())).0,
            match r {
                Ok(ts) => lex_from(old(self).input(), old(self).position(), last_token(old(self).token_views())).1
                    is Finished && tokens_view(ts@) == final(self).token_views()
                    && final(self).position() == final(self).input().len(),
                Err(e) => lex_from(old(self).input(), old(self).position(), last_token(old(self).token_views())).1
                    == LexEnd::Rejected(e.byte, e.position as int) && final(self).position() == e.position,
            },
    {
        let ghost s = self.char_stream@;
        let ghost t0 = self.token_views();
        let ghost goal = lex_from(s, self.curr_idx as int, last_token(t0));
        while self.curr_idx <= self.max_idx
            invariant
                self.wf(),
                s == self.char_stream@,
                s == old(self).char_stream@,
                t0 == old(self).token_views(),
                goal == lex_from(s, old(self).curr_idx as int, last_token(t0)),
                !(goal.1 is Crashed),
                lex_from(s, self.curr_idx as int, last_token(self.token_views())).1 == goal.1,
                t0 + goal.0 == self.token_views() + lex_from(s, self.curr_idx as int, last_token(self.token_views())).0,
            decreases s.len() - self.curr_idx,
        {
            let ghost i = self.curr_idx as int;
            self.skip_whitespace();
            proof {
                lemma_lex_from_skip(s, i, last_token(self.token_views()));
                lemma_skip_white_space_bounds(s, i);
            }
            if self.curr_idx <= self.max_idx {
                let ghost j = self.curr_idx as int;
                let ghost before = self.token_views();
                proof {
                    lemma_skip_white_space_stops(s, i);
                    lemma_scan_advances(s, j, last_token(before));
                }
                match self.read_token() {
                    Err(e) => {
                        proof {
                            assert(before + Seq::<SpecToken>::empty() =~= before);
                        }
                        return Err(e);
                    },
                    Ok(()) => {
                        proof {
                            match scan(s, j, last_token(before)) {
                                Scan::Emit(t, k) => {
                                    let rest = lex_from(s, k, Some(t));
                                    assert(last_token(self.token_views()) == Some(t));
                                    assert(before + (seq![t] + rest.0) =~= self.token_views() + rest.0);
                                },
                                _ => {},
                            }
                        }
                    },
                }
            }
        }
        proof {
            lemma_skip_white_space_bounds(s, self.curr_idx as int);
            assert(t0 + goal.0 =~= self.token_views());
        }
        Ok(&self.tokens)
    }
}

} // verus!
