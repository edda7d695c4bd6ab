//! The lexical scanner: a single left-to-right pass over the input
//! characters, with one character of lookahead (plus one more to decide
//! whether a `.` belongs to a number).
//!
//! The model of the scan is [`scan_model`]: a recursive function over the
//! character sequence that every exec function here is proved against.

use vstd::prelude::*;

use crate::token::{LexError, Token, TokenV, toks_view};

verus! {

/// Whitespace that the scanner skips.
pub open spec fn is_ws(c: char) -> bool {
    c == ' ' || c == '\r' || c == '\n' || c == '\t'
}

/// ASCII decimal digit.
pub open spec fn is_digit_char(c: char) -> bool {
    48 <= c as u32 && c as u32 <= 57
}

/// Does `c` scan as a single-character token?
pub open spec fn is_symbol(c: char) -> bool {
    c == '(' || c == ')' || c == '+' || c == '-' || c == '*' || c == '/' || c == '^'
}

/// The token a single symbol character scans to.
pub open spec fn symbol_tokv(c: char) -> TokenV {
    if c == '(' {
        TokenV::LeftParen
    } else if c == ')' {
        TokenV::RightParen
    } else if c == '+' {
        TokenV::Plus
    } else if c == '-' {
        TokenV::Minus
    } else if c == '*' {
        TokenV::Multiply
    } else if c == '/' {
        TokenV::Divide
    } else {
        TokenV::Power
    }
}

/// How many consecutive ASCII digits stand in `s` at and after `from`.
pub open spec fn digit_run(s: Seq<char>, from: int) -> nat
    decreases s.len() - from,
{
    if from < 0 || from >= s.len() || !is_digit_char(s[from]) {
        0
    } else {
        (1 + digit_run(s, from + 1)) as nat
    }
}

/// A digit run never runs past the end of the sequence.
pub proof fn lemma_digit_run_bound(s: Seq<char>, from: int)
    requires
        0 <= from <= s.len(),
    ensures
        from + digit_run(s, from) <= s.len(),
    decreases s.len() - from,
{
    if from < s.len() && is_digit_char(s[from]) {
        lemma_digit_run_bound(s, from + 1);
    }
}

/// A digit run covers exactly the digits up to the first non-digit.
pub proof fn lemma_digit_run_is(s: Seq<char>, from: int, n: int)
    requires
        0 <= from <= n <= s.len(),
        forall|j: int| from <= j < n ==> is_digit_char(s[j]),
        n == s.len() || !is_digit_char(s[n]),
    ensures
        digit_run(s, from) == n - from,
    decreases n - from,
{
    if from < n {
        lemma_digit_run_is(s, from + 1, n);
    }
}

/// Every character inside a digit run is a digit.
pub proof fn lemma_digit_run_digits(s: Seq<char>, from: int)
    requires
        0 <= from <= s.len(),
    ensures
        forall|j: int| from <= j < from + digit_run(s, from) ==> is_digit_char(s[j]),
    decreases s.len() - from,
{
    if from < s.len() && is_digit_char(s[from]) {
        lemma_digit_run_digits(s, from + 1);
    }
}

/// The exclusive end of the numeric span that starts at `start`: a maximal
/// digit run, extended across a `.` only when a further digit follows it.
pub open spec fn number_end(s: Seq<char>, start: int) -> int {
    let k = start + digit_run(s, start);
    if k < s.len() && s[k] == '.' && k + 1 < s.len() && is_digit_char(s[k + 1]) {
        k + 1 + digit_run(s, k + 1)
    } else {
        k
    }
}

/// Prepend one token to a scan result, keeping any error.
pub open spec fn cons_tok(t: TokenV, r: Result<Seq<TokenV>, LexError>) -> Result<
    Seq<TokenV>,
    LexError,
> {
    match r {
        Ok(ts) => Ok(seq![t] + ts),
        Err(e) => Err(e),
    }
}

/// The tokens scanned from position `i` of `s` to its end, or the first
/// lexical error. A character that is no whitespace, no symbol and no digit
/// fails the scan; a lone `.` in particular has no token of its own.
pub open spec fn scan_from(s: Seq<char>, i: int) -> Result<Seq<TokenV>, LexError>
    decreases s.len() - i,
        via scan_from_decreases
{
    if i < 0 || i >= s.len() {
        Ok(Seq::empty())
    } else if is_ws(s[i]) {
        scan_from(s, i + 1)
    } else if is_symbol(s[i]) {
        cons_tok(symbol_tokv(s[i]), scan_from(s, i + 1))
    } else if is_digit_char(s[i]) {
        cons_tok(TokenV::Number(s.subrange(i, number_end(s, i))), scan_from(s, number_end(s, i)))
    } else {
        Err(LexError::UnsupportedToken(s[i]))
    }
}

#[via_fn]
proof fn scan_from_decreases(s: Seq<char>, i: int) {
    if 0 <= i < s.len() && !is_ws(s[i]) && !is_symbol(s[i]) && is_digit_char(s[i]) {
        lemma_digit_run_bound(s, i);
        if i + digit_run(s, i) + 1 < s.len() {
            lemma_digit_run_bound(s, i + digit_run(s, i) + 1);
        }
    }
}

/// What scanning a whole character sequence yields.
pub open spec fn scan_model(s: Seq<char>) -> Result<Seq<TokenV>, LexError> {
    scan_from(s, 0)
}

/// The scan result once the tokens `done` are already emitted and the
/// characters before `i` are already consumed.
pub open spec fn scan_cont(done: Seq<TokenV>, s: Seq<char>, i: int) -> Result<
    Seq<TokenV>,
    LexError,
> {
    match scan_from(s, i) {
        Ok(ts) => Ok(done + ts),
        Err(e) => Err(e),
    }
}

/// Skipping a whitespace character emits nothing.
proof fn lemma_cont_ws(done: Seq<TokenV>, s: Seq<char>, i: int)
    requires
        0 <= i < s.len(),
        is_ws(s[i]),
    ensures
        scan_cont(done, s, i) == scan_cont(done, s, i + 1),
{
}

/// Consuming a symbol character emits exactly its token.
proof fn lemma_cont_symbol(done: Seq<TokenV>, s: Seq<char>, i: int)
    requires
        0 <= i < s.len(),
        !is_ws(s[i]),
        is_symbol(s[i]),
    ensures
        scan_cont(done, s, i) == scan_cont(done.push(symbol_tokv(s[i])), s, i + 1),
{
    let t = symbol_tokv(s[i]);
    match scan_from(s, i + 1) {
        Ok(ts) => {
            assert(done + (seq![t] + ts) =~= done.push(t) + ts);
        },
        Err(_) => {},
    }
}

/// Consuming a numeric span emits exactly its number token.
proof fn lemma_cont_number(done: Seq<TokenV>, s: Seq<char>, i: int)
    requires
        0 <= i < s.len(),
        !is_ws(s[i]),
        !is_symbol(s[i]),
        is_digit_char(s[i]),
    ensures
        scan_cont(done, s, i) == scan_cont(
            done.push(TokenV::Number(s.subrange(i, number_end(s, i)))),
            s,
            number_end(s, i),
        ),
{
    let t = TokenV::Number(s.subrange(i, number_end(s, i)));
    match scan_from(s, number_end(s, i)) {
        Ok(ts) => {
            assert(done + (seq![t] + ts) =~= done.push(t) + ts);
        },
        Err(_) => {},
    }
}

/// The view of a token sequence distributes over `push`.
pub proof fn lemma_toks_view_push(ts: Seq<Token>, t: Token)
    ensures
        toks_view(ts.push(t)) == toks_view(ts).push(t@),
{
    assert(toks_view(ts.push(t)) =~= toks_view(ts).push(t@));
}

/// Copy of the characters `v[a..b]`, the raw text of a number token.
pub(crate) fn copy_range(v: &Vec<char>, a: usize, b: usize) -> (r: Vec<char>)
    requires
        a <= b <= v@.len(),
    ensures
        r@ == v@.subrange(a as int, b as int),
{
    let mut r: Vec<char> = Vec::new();
    proof {
        assert(r@ =~= v@.subrange(a as int, a as int));
    }
    let mut j: usize = a;
    while j < b
        invariant
            a <= j <= b <= v@.len(),
            r@ == v@.subrange(a as int, j as int),
        decreases b - j,
    {
        r.push(v[j]);
        proof {
            assert(v@.subrange(a as int, j as int).push(v@[j as int]) =~= v@.subrange(
                a as int,
                j as int + 1,
            ));
        }
        j = j + 1;
    }
    r
}

/// The scanner: the input characters, the start of the token being scanned,
/// the next unread position, and the tokens emitted so far.
pub struct Scanner {
    pub chars: Vec<char>,
    pub start: usize,
    pub current: usize,
    pub tokens: Vec<Token>,
}

impl Scanner {
    /// The cursor invariant: the start of the token being scanned never
    /// passes the read cursor, and both stay within the input.
    pub open spec fn cursors_ok(&self) -> bool {
        self.start <= self.current <= self.chars@.len()
    }

    /// A fresh scanner over `chars`, with both cursors at the beginning.
    pub fn new(chars: Vec<char>) -> (s: Self)
        ensures
            s.chars@ == chars@,
            s.start == 0,
            s.current == 0,
            s.tokens@ == Seq::<Token>::empty(),
            s.cursors_ok(),
    {
        Self { chars, start: 0, current: 0, tokens: Vec::new() }
    }

    /// Has the cursor reached the end of the input?
    pub fn is_end(&self) -> (b: bool)
        ensures
            b == (self.current >= self.chars@.len()),
    {
        self.current >= self.chars.len()
    }

    /// The next unread character, if any; the cursor does not move.
    pub fn peek(&self) -> (r: Option<char>)
        ensures
            r == (if self.current < self.chars@.len() {
                Some(self.chars@[self.current as int])
            } else {
                None::<char>
            }),
    {
        if self.is_end() {
            None
        } else {
            Some(self.chars[self.current])
        }
    }

    /// The character after the next unread one, if any.
    pub fn peek_next(&self) -> (r: Option<char>)
        ensures
            r == (if self.current + 1 < self.chars@.len() {
                Some(self.chars@[self.current + 1])
            } else {
                None::<char>
            }),
    {
        if self.current >= self.chars.len() {
            None
        } else if self.current + 1 >= self.chars.len() {
            None
        } else {
            Some(self.chars[self.current + 1])
        }
    }

    /// Consume and return the next character.
    fn advance(&mut self) -> (c: char)
        requires
            old(self).current < old(self).chars@.len(),
        ensures
            c == old(self).chars@[old(self).current as int],
            final(self).current == old(self).current + 1,
            final(self).chars@ == old(self).chars@,
            final(self).start == old(self).start,
            final(self).tokens@ == old(self).tokens@,
    {
        let c = self.chars[self.current];
        assert(self.current < self.chars.len());
        self.current = self.current + 1;
        c
    }

    /// Is `ch` an ASCII digit?
    pub fn is_digit(&self, ch: char) -> (b: bool)
        ensures
            b == is_digit_char(ch),
    {
        ch as u32 >= 48 && ch as u32 <= 57
    }

    /// Append one token to the output.
    fn add_token(&mut self, tk: Token)
        ensures
            final(self).tokens@ == old(self).tokens@.push(tk),
            final(self).chars@ == old(self).chars@,
            final(self).start == old(self).start,
            final(self).current == old(self).current,
    {
        self.tokens.push(tk)
    }

    /// Consume the numeric span whose first digit was just consumed, and
    /// return its number token.
    fn get_number_token(&mut self) -> (t: Token)
        requires
            old(self).current == old(self).start + 1,
            old(self).start < old(self).chars@.len(),
            is_digit_char(old(self).chars@[old(self).start as int]),
        ensures
            final(self).chars@ == old(self).chars@,
            final(self).start == old(self).start,
            final(self).tokens@ == old(self).tokens@,
            final(self).current == number_end(old(self).chars@, old(self).start as int),
            final(self).current <= old(self).chars@.len(),
            t@ == TokenV::Number(
                old(self).chars@.subrange(
                    old(self).start as int,
                    number_end(old(self).chars@, old(self).start as int),
                ),
            ),
    {
        let ghost s = self.chars@;
        let ghost start = self.start as int;
        let n = self.chars.len();
        while self.current < n && self.is_digit(self.chars[self.current])
            invariant
                self.chars@ == s,
                self.start as int == start,
                self.tokens@ == old(self).tokens@,
                start < self.current <= n == s.len(),
                forall|j: int| start <= j < self.current ==> is_digit_char(s[j]),
            decreases n - self.current,
        {
            self.current = self.current + 1;
        }
        proof {
            lemma_digit_run_is(s, start, self.current as int);
        }
        let ghost k = start + digit_run(s, start);
        let mut has_fraction = false;
        if let Some(c) = self.peek() {
            if c == '.' {
                if let Some(c2) = self.peek_next() {
                    if self.is_digit(c2) {
                        has_fraction = true;
                    }
                }
            }
        }
        if has_fraction {
            // consume the '.' and the digit run after it
            self.current = self.current + 1;
            while self.current < n && self.is_digit(self.chars[self.current])
                invariant
                    self.chars@ == s,
                    self.start as int == start,
                    self.tokens@ == old(self).tokens@,
                    k + 1 <= self.current <= n == s.len(),
                    forall|j: int| k + 1 <= j < self.current ==> is_digit_char(s[j]),
                decreases n - self.current,
            {
                self.current = self.current + 1;
            }
            proof {
                lemma_digit_run_is(s, k + 1, self.current as int);
                assert(self.current as int == number_end(s, start));
            }
        } else {
            proof {
                assert(self.current as int == number_end(s, start));
            }
        }
        let text = copy_range(&self.chars, self.start, self.current);
        Token::Number(text)
    }

    /// Scan one token (or skip one whitespace character) at the current
    /// cursor; the cursor moves forward by at least one character.
    fn scan_token(&mut self) -> (r: Result<(), LexError>)
        requires
            old(self).start == old(self).current,
            old(self).current < old(self).chars@.len(),
        ensures
            final(self).chars@ == old(self).chars@,
            final(self).start == old(self).start,
            old(self).current < final(self).current <= final(self).chars@.len(),
            match r {
                Ok(()) => scan_cont(
                    toks_view(final(self).tokens@),
                    final(self).chars@,
                    final(self).current as int,
                ) == scan_cont(
                    toks_view(old(self).tokens@),
                    old(self).chars@,
                    old(self).current as int,
                ),
                Err(e) => scan_from(old(self).chars@, old(self).current as int) == Err::<Seq<TokenV>, LexError>(e),
            },
    {
        let ghost s = self.chars@;
        let ghost i = self.current as int;
        let ghost done = toks_view(self.tokens@);
        let ch = self.advance();
        match ch {
            '(' => {
                self.add_token(Token::LeftParen);
                proof {
                    lemma_toks_view_push(old(self).tokens@, Token::LeftParen);
                    lemma_cont_symbol(done, s, i);
                }
                Ok(())
            },
            ')' => {
                self.add_token(Token::RightParen);
                proof {
                    lemma_toks_view_push(old(self).tokens@, Token::RightParen);
                    lemma_cont_symbol(done, s, i);
                }
                Ok(())
            },
            '*' => {
                self.add_token(Token::Multiply);
                proof {
                    lemma_toks_view_push(old(self).tokens@, Token::Multiply);
                    lemma_cont_symbol(done, s, i);
                }
                Ok(())
            },
            '/' => {
                self.add_token(Token::Divide);
                proof {
                    lemma_toks_view_push(old(self).tokens@, Token::Divide);
                    lemma_cont_symbol(done, s, i);
                }
                Ok(())
            },
            '+' => {
                self.add_token(Token::Plus);
                proof {
                    lemma_toks_view_push(old(self).tokens@, Token::Plus);
                    lemma_cont_symbol(done, s, i);
                }
                Ok(())
            },
            '-' => {
                self.add_token(Token::Minus);
                proof {
                    lemma_toks_view_push(old(self).tokens@, Token::Minus);
                    lemma_cont_symbol(done, s, i);
                }
                Ok(())
            },
            '^' => {
                self.add_token(Token::Power);
                proof {
                    lemma_toks_view_push(old(self).tokens@, Token::Power);
                    lemma_cont_symbol(done, s, i);
                }
                Ok(())
            },
            ' ' | '\r' | '\n' | '\t' => {
                proof {
                    lemma_cont_ws(done, s, i);
                }
                Ok(())
            },
            _ => {
                if self.is_digit(ch) {
                    let t = self.get_number_token();
                    let ghost tg = t;
                    self.add_token(t);
                    proof {
                        lemma_toks_view_push(old(self).tokens@, tg);
                        lemma_cont_number(done, s, i);
                        assert(digit_run(s, i) >= 1);
                    }
                    Ok(())
                } else {
                    Err(LexError::UnsupportedToken(ch))
                }
            },
        }
    }

    /// Scan the whole input: on success `self.tokens` holds exactly the
    /// tokens of the model scan.
    pub fn scan_tokens(&mut self) -> (r: Result<(), LexError>)
        requires
            old(self).start == 0,
            old(self).current == 0,
            old(self).tokens@.len() == 0,
        ensures
            final(self).chars@ == old(self).chars@,
            final(self).cursors_ok(),
            match r {
                Ok(()) => scan_model(old(self).chars@) == Ok::<Seq<TokenV>, LexError>(toks_view(final(self).tokens@)),
                Err(e) => scan_model(old(self).chars@) == Err::<Seq<TokenV>, LexError>(e),
            },
    {
        let ghost s = self.chars@;
        proof {
            assert(toks_view(self.tokens@) =~= Seq::<TokenV>::empty());
            match scan_from(s, 0) {
                Ok(ts) => {
                    assert(toks_view(self.tokens@) + ts =~= ts);
                },
                Err(_) => {},
            }
        }
        while !self.is_end()
            invariant
                self.chars@ == old(self).chars@,
                self.start <= self.current <= self.chars@.len(),
                scan_cont(toks_view(self.tokens@), self.chars@, self.current as int) == scan_from(
                    old(self).chars@,
                    0,
                ),
            decreases self.chars@.len() - self.current,
        {
            self.start = self.current;
            match self.scan_token() {
                Ok(()) => {},
                Err(e) => {
                    return Err(e);
                },
            }
        }
        proof {
            assert(toks_view(self.tokens@) + Seq::<TokenV>::empty() =~= toks_view(self.tokens@));
        }
        Ok(())
    }
}

/// Scan a character sequence into tokens: exactly the tokens of
/// [`scan_model`], or its first lexical error.
pub fn scan(input: Vec<char>) -> (r: Result<Vec<Token>, LexError>)
    ensures
        match r {
            Ok(ts) => scan_model(input@) == Ok::<Seq<TokenV>, LexError>(toks_view(ts@)),
            Err(e) => scan_model(input@) == Err::<Seq<TokenV>, LexError>(e),
        },
{
    let mut sc = Scanner::new(input);
    match sc.scan_tokens() {
        Ok(()) => Ok(sc.tokens),
        Err(e) => Err(e),
    }
}

} // verus!
