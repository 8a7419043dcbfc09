//! Scanning of JSON text into tokens, one at a time.
use vstd::prelude::*;

pub use super::{Token, TokenView};
use crate::error::{ErrorView, JsonError};
use crate::types::Decimal;

verus! {

/// Whitespace between tokens: space, tab and newline.
pub open spec fn whitespace_char() -> spec_fn(char) -> bool {
    |c: char| c == ' ' || c == '\t' || c == '\n'
}

/// A character inside a string literal: anything but `"`.
pub open spec fn string_char() -> spec_fn(char) -> bool {
    |c: char| c != '"'
}

pub open spec fn is_digit(c: char) -> bool {
    '0' <= c <= '9'
}

pub open spec fn digit_char() -> spec_fn(char) -> bool {
    |c: char| is_digit(c)
}

/// A character of a numeric literal: a digit or a point.
pub open spec fn number_char() -> spec_fn(char) -> bool {
    |c: char| is_digit(c) || c == '.'
}

/// The letters that a boolean literal is scanned over.
pub open spec fn bool_char() -> spec_fn(char) -> bool {
    |c: char| c == 'a' || c == 'l' || c == 's' || c == 'e' || c == 'r' || c == 'u'
}

/// The end of the run of characters of `s` from `p` on that satisfy `pred`:
/// the first index from `p` whose character does not, or the length of `s`.
pub open spec fn run_end(s: Seq<char>, p: int, pred: spec_fn(char) -> bool) -> int
    decreases s.len() - p,
{
    if 0 <= p < s.len() && pred(s[p]) {
        run_end(s, p + 1, pred)
    } else {
        p
    }
}

/// The first index from `p` that holds no whitespace.
pub open spec fn skip_whitespace(s: Seq<char>, p: int) -> int {
    run_end(s, p, whitespace_char())
}

/// The value of a sequence of decimal digits.
pub open spec fn digits_value(t: Seq<char>) -> nat
    decreases t.len(),
{
    if t.len() == 0 {
        0
    } else {
        digits_value(t.drop_last()) * 10 + (t.last() as u32 - '0' as u32) as nat
    }
}

/// The token of a numeric literal `t`, made of digits and points: an integer
/// when it holds no point, a float when it holds one.
pub open spec fn number_token(t: Seq<char>) -> Result<TokenView, ErrorView> {
    let d = run_end(t, 0, digit_char());
    if d == t.len() {
        if digits_value(t) <= i64::MAX {
            Ok(TokenView::Int(digits_value(t) as int))
        } else {
            Err(ErrorView::NumberError(t))
        }
    } else {
        let fraction = t.subrange(d + 1, t.len() as int);
        if run_end(fraction, 0, digit_char()) == fraction.len() {
            Ok(TokenView::Float(t.subrange(0, d), fraction))
        } else {
            Err(ErrorView::NumberError(t))
        }
    }
}

/// The token of a word that starts with `t` or `f`.
pub open spec fn bool_token(w: Seq<char>) -> TokenView {
    if w == seq!['t', 'r', 'u', 'e'] {
        TokenView::Bool(true)
    } else if w == seq!['f', 'a', 'l', 's', 'e'] {
        TokenView::Bool(false)
    } else {
        TokenView::Str(w)
    }
}

/// The next token of `s` from position `p`, with the position after it; `None`
/// where only whitespace is left.
pub open spec fn lex(s: Seq<char>, p: int) -> Option<(Result<TokenView, ErrorView>, int)> {
    let q = skip_whitespace(s, p);
    if q < 0 || q >= s.len() {
        None
    } else {
        let c = s[q];
        if c == '{' {
            Some((Ok(TokenView::OpenCurlybracket), q + 1))
        } else if c == '}' {
            Some((Ok(TokenView::CloseCurlybracket), q + 1))
        } else if c == '[' {
            Some((Ok(TokenView::OpenBracket), q + 1))
        } else if c == ']' {
            Some((Ok(TokenView::CloseBracket), q + 1))
        } else if c == ',' {
            Some((Ok(TokenView::Comma), q + 1))
        } else if c == ':' {
            Some((Ok(TokenView::Colon), q + 1))
        } else if c == '"' {
            let e = run_end(s, q + 1, string_char());
            if e >= s.len() {
                Some((Err(ErrorView::UnterminatedStringError), e))
            } else {
                Some((Ok(TokenView::Str(s.subrange(q + 1, e))), e + 1))
            }
        } else if is_digit(c) {
            let e = run_end(s, q, number_char());
            Some((number_token(s.subrange(q, e)), e))
        } else if c == 't' || c == 'f' {
            let e = run_end(s, q + 1, bool_char());
            Some((Ok(bool_token(s.subrange(q, e))), e))
        } else {
            Some((Err(ErrorView::UnknownCharError(c)), q + 1))
        }
    }
}

/// Whether the next character of `s` from `p` that is no whitespace is `c`.
pub open spec fn peek_is(s: Seq<char>, p: int, c: char) -> bool {
    let q = skip_whitespace(s, p);
    0 <= q < s.len() && s[q] == c
}

pub open spec fn token_result_view(r: Result<Token, JsonError>) -> Result<TokenView, ErrorView> {
    match r {
        Ok(t) => Ok(t@),
        Err(e) => Err(e@),
    }
}

pub proof fn lemma_run_end(s: Seq<char>, p: int, pred: spec_fn(char) -> bool)
    requires
        0 <= p <= s.len(),
    ensures
        p <= run_end(s, p, pred) <= s.len(),
        forall|k: int| p <= k < run_end(s, p, pred) ==> pred(#[trigger] s[k]),
        run_end(s, p, pred) < s.len() ==> !pred(s[run_end(s, p, pred)]),
    decreases s.len() - p,
{
    if p < s.len() && pred(s[p]) {
        lemma_run_end(s, p + 1, pred);
    }
}

pub proof fn lemma_run_end_at(s: Seq<char>, p: int, k: int, pred: spec_fn(char) -> bool)
    requires
        0 <= p <= k <= s.len(),
        forall|j: int| p <= j < k ==> pred(#[trigger] s[j]),
        k == s.len() || !pred(s[k]),
    ensures
        run_end(s, p, pred) == k,
    decreases k - p,
{
    if p < k {
        lemma_run_end_at(s, p + 1, k, pred);
    }
}

/// A token always takes at least one character.
pub proof fn lemma_lex_advances(s: Seq<char>, p: int)
    ensures
        lex(s, p) matches Some((_, q)) ==> 0 <= p < q <= s.len(),
        0 <= p <= s.len() && lex(s, p) is None ==> skip_whitespace(s, p) == s.len(),
{
    if 0 <= p <= s.len() {
        lemma_run_end(s, p, whitespace_char());
        let q = skip_whitespace(s, p);
        if q < s.len() {
            lemma_run_end(s, q + 1, string_char());
            lemma_run_end(s, q, number_char());
            lemma_run_end(s, q + 1, bool_char());
        }
    }
}

/// Scans JSON text into tokens, skipping the whitespace between them.
pub struct Tokenizer {
    chars: Vec<char>,
    pos: usize,
}

impl Tokenizer {
    #[verifier::type_invariant]
    spec fn inv(&self) -> bool {
        self.pos <= self.chars@.len()
    }

    /// The whole text being scanned.
    pub closed spec fn input(&self) -> Seq<char> {
        self.chars@
    }

    /// The index of the next character to scan.
    pub closed spec fn position(&self) -> int {
        self.pos as int
    }

    pub fn new(json: &str) -> (r: Tokenizer)
        ensures
            r.input() == json@,
            r.position() == 0,
    {
        let mut chars: Vec<char> = Vec::new();
        for c in it: json.chars()
            invariant
                chars@ == it.seq().take(it.index() as int),
                it.seq() == json@,
        {
            chars.push(c);
        }
        Tokenizer { chars, pos: 0 }
    }

    /// The index of the next character that is no whitespace.
    fn next_non_whitespace(&self) -> (q: usize)
        ensures
            q == skip_whitespace(self.input(), self.position()),
            q <= self.input().len(),
    {
        proof {
            use_type_invariant(self);
        }
        let mut q = self.pos;
        while q < self.chars.len() && (self.chars[q] == ' ' || self.chars[q] == '\t'
            || self.chars[q] == '\n')
            invariant
                self.pos <= q <= self.chars@.len(),
                forall|k: int| self.pos <= k < q ==> (whitespace_char())(#[trigger] self.chars@[k]),
            decreases self.chars@.len() - q,
        {
            q = q + 1;
        }
        proof {
            lemma_run_end_at(self.chars@, self.pos as int, q as int, whitespace_char());
        }
        q
    }

    /// Returns the next token, `None` at the end of the text, or the error of a
    /// literal that cannot be scanned.
    pub fn next(&mut self) -> (r: Option<Result<Token, JsonError>>)
        ensures
            final(self).input() == old(self).input(),
            match lex(old(self).input(), old(self).position()) {
                None => r is None,
                Some((t, q)) => r matches Some(x) && token_result_view(x) == t
                    && final(self).position() == q,
            },
    {
        let q = self.next_non_whitespace();
        if q >= self.chars.len() {
            return None;
        }
        self.pos = q;
        let c = self.chars[self.pos];
        let r = if c == '{' {
            self.pos = self.pos + 1;
            Ok(Token::OpenCurlybracket)
        } else if c == '}' {
            self.pos = self.pos + 1;
            Ok(Token::CloseCurlybracket)
        } else if c == '[' {
            self.pos = self.pos + 1;
            Ok(Token::OpenBracket)
        } else if c == ']' {
            self.pos = self.pos + 1;
            Ok(Token::CloseBracket)
        } else if c == ',' {
            self.pos = self.pos + 1;
            Ok(Token::Comma)
        } else if c == ':' {
            self.pos = self.pos + 1;
            Ok(Token::Colon)
        } else if c == '"' {
            self.pos = self.pos + 1;
            self.parse_string()
        } else if '0' <= c && c <= '9' {
            self.parse_numeric()
        } else if c == 't' || c == 'f' {
            self.pos = self.pos + 1;
            self.parse_bool(c)
        } else {
            self.pos = self.pos + 1;
            Err(JsonError::UnknownCharError(c))
        };
        Some(r)
    }

    /// Whether the next character that is no whitespace is `}`; nothing is
    /// consumed.
    pub fn is_next_token_closing_curly_bracket(&mut self) -> (r: bool)
        ensures
            *final(self) == *old(self),
            r == peek_is(old(self).input(), old(self).position(), '}'),
    {
        let q = self.next_non_whitespace();
        q < self.chars.len() && self.chars[q] == '}'
    }

    /// Whether the next character that is no whitespace is `]`; nothing is
    /// consumed.
    pub fn is_next_token_closing_bracket(&mut self) -> (r: bool)
        ensures
            *final(self) == *old(self),
            r == peek_is(old(self).input(), old(self).position(), ']'),
    {
        let q = self.next_non_whitespace();
        q < self.chars.len() && self.chars[q] == ']'
    }

    /// Scans a string literal whose opening `"` has been consumed.
    fn parse_string(&mut self) -> (r: Result<Token, JsonError>)
        ensures
            final(self).input() == old(self).input(),
            ({
                let s = old(self).input();
                let e = run_end(s, old(self).position(), string_char());
                if e >= s.len() {
                    token_result_view(r) == Err::<TokenView, ErrorView>(
                        ErrorView::UnterminatedStringError,
                    ) && final(self).position() == e
                } else {
                    token_result_view(r) == Ok::<TokenView, ErrorView>(
                        TokenView::Str(s.subrange(old(self).position(), e)),
                    ) && final(self).position() == e + 1
                }
            }),
    {
        proof {
            use_type_invariant(&*self);
        }
        let ghost start = self.pos as int;
        let mut text = String::new();
        while self.pos < self.chars.len() && self.chars[self.pos] != '"'
            invariant
                self.chars@ == old(self).chars@,
                start == old(self).pos,
                start <= self.pos <= self.chars@.len(),
                forall|k: int| start <= k < self.pos ==> (string_char())(#[trigger] self.chars@[k]),
                text@ == self.chars@.subrange(start, self.pos as int),
            decreases self.chars@.len() - self.pos,
        {
            text.push(self.chars[self.pos]);
            self.pos = self.pos + 1;
            assert(text@ =~= self.chars@.subrange(start, self.pos as int));
        }
        proof {
            lemma_run_end_at(self.chars@, start, self.pos as int, string_char());
        }
        if self.pos >= self.chars.len() {
            Err(JsonError::UnterminatedStringError)
        } else {
            self.pos = self.pos + 1;
            Ok(Token::Str(text))
        }
    }

    /// Scans a numeric literal that starts at the current position.
    fn parse_numeric(&mut self) -> (r: Result<Token, JsonError>)
        requires
            0 <= old(self).position() < old(self).input().len(),
            is_digit(old(self).input()[old(self).position()]),
        ensures
            final(self).input() == old(self).input(),
            final(self).position() == run_end(
                old(self).input(),
                old(self).position(),
                number_char(),
            ),
            token_result_view(r) == number_token(
                old(self).input().subrange(old(self).position(), final(self).position()),
            ),
    {
        proof {
            use_type_invariant(&*self);
        }
        let ghost start = self.pos as int;
        let mut text = String::new();
        let mut whole = String::new();
        let mut fraction = String::new();
        let mut points: usize = 0;
        let mut value: u64 = 0;
        let mut overflow = false;
        while self.pos < self.chars.len() && (('0' <= self.chars[self.pos] && self.chars[self.pos]
            <= '9') || self.chars[self.pos] == '.')
            invariant
                self.chars@ == old(self).chars@,
                start == old(self).pos,
                start <= self.pos <= self.chars@.len(),
                forall|k: int| start <= k < self.pos ==> (number_char())(#[trigger] self.chars@[k]),
                text@ == self.chars@.subrange(start, self.pos as int),
                points <= 2,
                points == 0 ==> {
                    &&& whole@ == text@
                    &&& fraction@.len() == 0
                    &&& run_end(text@, 0, digit_char()) == text@.len()
                    &&& !overflow ==> value == digits_value(text@) && value <= i64::MAX
                    &&& overflow ==> digits_value(text@) > i64::MAX
                },
                points > 0 ==> {
                    &&& run_end(text@, 0, digit_char()) == whole@.len()
                    &&& whole@.len() < text@.len()
                    &&& whole@ == text@.subrange(0, whole@.len() as int)
                    &&& fraction@ == text@.subrange(whole@.len() as int + 1, text@.len() as int)
                    &&& (points == 1 <==> run_end(fraction@, 0, digit_char()) == fraction@.len())
                },
            decreases self.chars@.len() - self.pos,
        {
            let c = self.chars[self.pos];
            let ghost old_text = text@;
            text.push(c);
            self.pos = self.pos + 1;
            assert(text@ =~= self.chars@.subrange(start, self.pos as int));
            assert(text@ =~= old_text.push(c));
            if points == 0 {
                proof {
                    lemma_run_end(old_text, 0, digit_char());
                }
                if c == '.' {
                    points = 1;
                    proof {
                        lemma_run_end_at(text@, 0, old_text.len() as int, digit_char());
                        lemma_run_end_at(fraction@, 0, 0, digit_char());
                        assert(whole@ =~= text@.subrange(0, whole@.len() as int));
                        assert(fraction@ =~= text@.subrange(whole@.len() as int + 1, text@.len() as int));
                    }
                } else {
                    whole.push(c);
                    proof {
                        lemma_run_end_at(text@, 0, text@.len() as int, digit_char());
                        assert(text@.drop_last() =~= old_text);
                    }
                    let d = (c as u32 - '0' as u32) as u64;
                    if !overflow {
                        if value <= (9223372036854775807u64 - d) / 10 {
                            assert(value * 10 + d <= 9223372036854775807u64) by (nonlinear_arith)
                                requires
                                    value <= (9223372036854775807u64 - d) / 10,
                                    d <= 9,
                            ;
                            value = value * 10 + d;
                        } else {
                            assert(value * 10 + d > 9223372036854775807u64) by (nonlinear_arith)
                                requires
                                    value > (9223372036854775807u64 - d) / 10,
                                    d <= 9,
                            ;
                            overflow = true;
                        }
                    }
                }
            } else {
                let ghost old_fraction = fraction@;
                fraction.push(c);
                proof {
                    lemma_run_end(old_text, 0, digit_char());
                    lemma_run_end_at(text@, 0, whole@.len() as int, digit_char());
                    assert(whole@ =~= text@.subrange(0, whole@.len() as int));
                    assert(fraction@ =~= text@.subrange(whole@.len() as int + 1, text@.len() as int));
                    lemma_run_end(old_fraction, 0, digit_char());
                    let fe = run_end(old_fraction, 0, digit_char());
                    if fe < old_fraction.len() {
                        lemma_run_end_at(fraction@, 0, fe, digit_char());
                    } else if c == '.' {
                        lemma_run_end_at(fraction@, 0, fe, digit_char());
                    } else {
                        lemma_run_end_at(fraction@, 0, fraction@.len() as int, digit_char());
                    }
                }
                if c == '.' && points == 1 {
                    points = 2;
                }
            }
        }
        proof {
            lemma_run_end_at(self.chars@, start, self.pos as int, number_char());
        }
        if points == 0 {
            if overflow {
                Err(JsonError::NumberError(text))
            } else {
                Ok(Token::Int(value as i64))
            }
        } else if points == 1 {
            Ok(Token::Float(Decimal { whole, fraction }))
        } else {
            Err(JsonError::NumberError(text))
        }
    }

    /// Scans a word whose first letter, `t` or `f`, has been consumed.
    fn parse_bool(&mut self, first: char) -> (r: Result<Token, JsonError>)
        requires
            1 <= old(self).position() <= old(self).input().len(),
            old(self).input()[old(self).position() - 1] == first,
        ensures
            final(self).input() == old(self).input(),
            final(self).position() == run_end(old(self).input(), old(self).position(), bool_char()),
            token_result_view(r) == Ok::<TokenView, ErrorView>(
                bool_token(
                    old(self).input().subrange(old(self).position() - 1, final(self).position()),
                ),
            ),
    {
        proof {
            use_type_invariant(&*self);
        }
        let ghost start = self.pos as int;
        let mut word = String::new();
        word.push(first);
        assert(word@ =~= self.chars@.subrange(start - 1, start));
        while self.pos < self.chars.len() && (self.chars[self.pos] == 'a' || self.chars[self.pos]
            == 'l' || self.chars[self.pos] == 's' || self.chars[self.pos] == 'e'
            || self.chars[self.pos] == 'r' || self.chars[self.pos] == 'u')
            invariant
                self.chars@ == old(self).chars@,
                start == old(self).pos,
                1 <= start <= self.pos <= self.chars@.len(),
                forall|k: int| start <= k < self.pos ==> (bool_char())(#[trigger] self.chars@[k]),
                word@ == self.chars@.subrange(start - 1, self.pos as int),
            decreases self.chars@.len() - self.pos,
        {
            word.push(self.chars[self.pos]);
            self.pos = self.pos + 1;
            assert(word@ =~= self.chars@.subrange(start - 1, self.pos as int));
        }
        proof {
            lemma_run_end_at(self.chars@, start, self.pos as int, bool_char());
            reveal_strlit("true");
            reveal_strlit("false");
        }
        let t = "true".to_owned();
        let f = "false".to_owned();
        assert(t@ =~= seq!['t', 'r', 'u', 'e']);
        assert(f@ =~= seq!['f', 'a', 'l', 's', 'e']);
        if word == t {
            Ok(Token::Bool(true))
        } else if word == f {
            Ok(Token::Bool(false))
        } else {
            Ok(Token::Str(word))
        }
    }
}

} // verus!
