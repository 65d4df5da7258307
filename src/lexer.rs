//! The scanner: turns source text into tokens in a single forward pass.
use vstd::prelude::*;
use crate::text::{alphabetic, ascii_letter, whitespace, is_alphabetic, is_whitespace, chars_of, string_of};
use crate::token::{Token, TokenV, word_token, lookup_word};

verus! {

/// Why scanning failed.
#[derive(Debug, Clone, Copy, PartialEq, Eq, Structural)]
pub enum LexError {
    /// A string literal has no closing quote.
    UnterminatedString,
    /// A block comment has no closer.
    UnterminatedComment,
    /// A character that starts no token.
    IllegalCharacter(char),
    /// An integer literal does not fit in 64 signed bits.
    IntegerOverflow,
}

/// A scanner over the characters of one source text.
pub struct Lexer {
    pub chars: Vec<char>,
    pub pos: usize,
}

pub open spec fn is_digit(c: char) -> bool {
    '0' <= c && c <= '9'
}

/// A character that may stand in a name: an underscore or an alphabetic
/// character, which among ASCII characters are the letters.
pub open spec fn ident_char(c: char) -> bool {
    if c <= '\u{7f}' {
        ascii_letter(c) || c == '_'
    } else {
        alphabetic(c)
    }
}

/// The first position at or after `p` that holds no whitespace.
pub open spec fn skip_ws(cs: Seq<char>, p: int) -> int
    decreases cs.len() - p,
{
    if 0 <= p < cs.len() && whitespace(cs[p]) {
        skip_ws(cs, p + 1)
    } else {
        p
    }
}

/// The end of the run of identifier characters that starts at `p`.
pub open spec fn ident_end(cs: Seq<char>, p: int) -> int
    decreases cs.len() - p,
{
    if 0 <= p < cs.len() && ident_char(cs[p]) {
        ident_end(cs, p + 1)
    } else {
        p
    }
}

/// The end of the run of decimal digits that starts at `p`.
pub open spec fn digits_end(cs: Seq<char>, p: int) -> int
    decreases cs.len() - p,
{
    if 0 <= p < cs.len() && is_digit(cs[p]) {
        digits_end(cs, p + 1)
    } else {
        p
    }
}

/// The position of the first double quote at or after `p`, or the length
/// of the text if there is none.
pub open spec fn quote_from(cs: Seq<char>, p: int) -> int
    decreases cs.len() - p,
{
    if 0 <= p < cs.len() && cs[p] != '"' {
        quote_from(cs, p + 1)
    } else if p < cs.len() {
        p
    } else {
        cs.len() as int
    }
}

/// The position of the first `*/` at or after `p`, or the length of the
/// text if there is none.
pub open spec fn closer_from(cs: Seq<char>, p: int) -> int
    decreases cs.len() - p,
{
    if 0 <= p && p + 1 < cs.len() {
        if cs[p] == '*' && cs[p + 1] == '/' {
            p
        } else {
            closer_from(cs, p + 1)
        }
    } else {
        cs.len() as int
    }
}

/// Whether a block comment opens at `q`.
pub open spec fn opens_comment(cs: Seq<char>, q: int) -> bool {
    0 <= q && q + 1 < cs.len() && cs[q] == '/' && cs[q + 1] == '*'
}

/// The position of the next token after `p`, past whitespace and comments;
/// `None` where a comment is never closed.
pub open spec fn trivia_end(cs: Seq<char>, p: int) -> Option<int>
    decreases cs.len() - p,
{
    let q = skip_ws(cs, p);
    if opens_comment(cs, q) {
        let e = closer_from(cs, q + 2);
        if e >= cs.len() {
            None
        } else if p < e + 2 && e + 2 <= cs.len() {
            trivia_end(cs, e + 2)
        } else {
            Some(q)
        }
    } else {
        Some(q)
    }
}

/// The value of a run of decimal digits.
pub open spec fn digits_value(ds: Seq<char>) -> int
    decreases ds.len(),
{
    if ds.len() == 0 {
        0
    } else {
        digits_value(ds.drop_last()) * 10 + (ds.last() as int - '0' as int)
    }
}

/// The token that a character forms, alone or with the one that follows it,
/// and its length; `None` for the characters that start longer tokens or none.
pub open spec fn symbol(c: char, next: Option<char>) -> Option<(Token, int)> {
    if c == '=' {
        if next == Some('=') { Some((Token::EQ, 2)) } else { Some((Token::ASSIGN, 1)) }
    } else if c == '!' {
        if next == Some('=') { Some((Token::NEQ, 2)) } else { Some((Token::BANG, 1)) }
    } else if c == '<' {
        if next == Some('=') { Some((Token::LEQ, 2)) } else { Some((Token::LE, 1)) }
    } else if c == '>' {
        if next == Some('=') { Some((Token::GEQ, 2)) } else { Some((Token::GR, 1)) }
    } else if c == ':' {
        if next == Some('3') { Some((Token::SEMICOLON, 2)) } else { None }
    } else if c == ',' {
        Some((Token::COMMA, 1))
    } else if c == ';' {
        Some((Token::SEMICOLON, 1))
    } else if c == '+' {
        Some((Token::PLUS, 1))
    } else if c == '-' {
        Some((Token::MINUS, 1))
    } else if c == '%' {
        Some((Token::MOD, 1))
    } else if c == '*' {
        Some((Token::ASTERISK, 1))
    } else if c == '/' {
        Some((Token::SLASH, 1))
    } else if c == '(' {
        Some((Token::LPAR, 1))
    } else if c == ')' {
        Some((Token::RPAR, 1))
    } else if c == '{' {
        Some((Token::LBRA, 1))
    } else if c == '}' {
        Some((Token::RBRA, 1))
    } else {
        None
    }
}

/// The character at `i`, if there is one.
pub open spec fn char_at(cs: Seq<char>, i: int) -> Option<char> {
    if 0 <= i < cs.len() { Some(cs[i]) } else { None }
}

/// The token that starts at position `q`, where a character stands, and the
/// position after it.
pub open spec fn token_at(cs: Seq<char>, q: int) -> (Result<TokenV, LexError>, int) {
    let c = cs[q];
    match symbol(c, char_at(cs, q + 1)) {
        Some((t, n)) => (Ok(TokenV::Plain(t)), q + n),
        None => if c == '"' {
            let e = quote_from(cs, q + 1);
            if e >= cs.len() {
                (Err(LexError::UnterminatedString), cs.len() as int)
            } else {
                (Ok(TokenV::Str(cs.subrange(q + 1, e))), e + 1)
            }
        } else if ident_char(c) {
            let e = ident_end(cs, q + 1);
            (Ok(word_token(cs.subrange(q, e))), e)
        } else if is_digit(c) {
            let e = digits_end(cs, q + 1);
            let v = digits_value(cs.subrange(q, e));
            if v <= i64::MAX {
                (Ok(TokenV::Plain(Token::INT(v as i64))), e)
            } else {
                (Err(LexError::IntegerOverflow), e)
            }
        } else {
            (Ok(TokenV::Illegal(seq![c])), q + 1)
        },
    }
}

/// The next token at or after position `p`, and the position after it.
pub open spec fn scan(cs: Seq<char>, p: int) -> (Result<TokenV, LexError>, int) {
    match trivia_end(cs, p) {
        None => (Err(LexError::UnterminatedComment), cs.len() as int),
        Some(q) => if q >= cs.len() {
            (Ok(TokenV::Plain(Token::EOF)), q)
        } else {
            token_at(cs, q)
        },
    }
}

/// The tokens scanned from position `p` while characters remain.
pub open spec fn scan_from(cs: Seq<char>, p: int) -> Result<Seq<TokenV>, LexError>
    decreases cs.len() - p,
{
    if p < 0 || p >= cs.len() {
        Ok(Seq::empty())
    } else {
        match scan(cs, p).0 {
            Err(e) => Err(e),
            Ok(t) => {
                let np = scan(cs, p).1;
                if p < np <= cs.len() {
                    match scan_from(cs, np) {
                        Err(e) => Err(e),
                        Ok(ts) => Ok(seq![t] + ts),
                    }
                } else {
                    Ok(seq![t])
                }
            },
        }
    }
}

/// The index of the first illegal token, if any.
pub open spec fn first_illegal(ts: Seq<TokenV>) -> Option<int>
    decreases ts.len(),
{
    if ts.len() == 0 {
        None
    } else {
        match first_illegal(ts.drop_last()) {
            Some(i) => Some(i),
            None => if ts.last() is Illegal { Some(ts.len() - 1) } else { None },
        }
    }
}

pub proof fn lemma_first_illegal_bound(ts: Seq<TokenV>)
    ensures
        first_illegal(ts) matches Some(i) ==> 0 <= i < ts.len() && ts[i] is Illegal,
    decreases ts.len(),
{
    if ts.len() > 0 {
        lemma_first_illegal_bound(ts.drop_last());
    }
}

/// A token sequence that ends with the end marker.
pub open spec fn with_end(ts: Seq<TokenV>) -> Seq<TokenV> {
    if ts.len() > 0 && ts.last() == TokenV::Plain(Token::EOF) {
        ts
    } else {
        ts.push(TokenV::Plain(Token::EOF))
    }
}

/// The tokens of a text from position `p` in reading order, ending with the end marker;
/// an error where scanning fails or an illegal character occurs.
pub open spec fn tokens_from(cs: Seq<char>, p: int) -> Result<Seq<TokenV>, LexError> {
    match scan_from(cs, p) {
        Err(e) => Err(e),
        Ok(ts) => {
            let all = with_end(ts);
            match first_illegal(all) {
                Some(i) => Err(LexError::IllegalCharacter(all[i]->Illegal_0[0])),
                None => Ok(all),
            }
        },
    }
}

/// A sequence in the opposite order.
pub open spec fn reversed<A>(s: Seq<A>) -> Seq<A> {
    Seq::new(s.len(), |i: int| s[s.len() - 1 - i])
}

pub open spec fn result_view(r: Result<Token, LexError>) -> Result<TokenV, LexError> {
    match r {
        Ok(t) => Ok(t@),
        Err(e) => Err(e),
    }
}

pub open spec fn views(ts: Seq<Token>) -> Seq<TokenV> {
    ts.map_values(|t: Token| t@)
}

/// The first position without whitespace lies at or after the start.
pub proof fn lemma_skip_ws(cs: Seq<char>, p: int)
    ensures
        skip_ws(cs, p) >= p,
        p <= cs.len() ==> skip_ws(cs, p) <= cs.len(),
    decreases cs.len() - p,
{
    if 0 <= p < cs.len() && whitespace(cs[p]) {
        lemma_skip_ws(cs, p + 1);
    }
}

/// A closer found lies at or after the start, and is followed by a slash.
pub proof fn lemma_closer_from(cs: Seq<char>, p: int)
    requires
        0 <= p,
    ensures
        closer_from(cs, p) >= p || closer_from(cs, p) == cs.len(),
        closer_from(cs, p) < cs.len() ==> closer_from(cs, p) + 1 < cs.len(),
    decreases cs.len() - p,
{
    if p + 1 < cs.len() && !(cs[p] == '*' && cs[p + 1] == '/') {
        lemma_closer_from(cs, p + 1);
    }
}

/// Past whitespace and comments lies a position no earlier than the start.
pub proof fn lemma_trivia_end(cs: Seq<char>, p: int)
    requires
        0 <= p <= cs.len(),
    ensures
        trivia_end(cs, p) matches Some(q) ==> p <= q <= cs.len(),
    decreases cs.len() - p,
{
    lemma_skip_ws(cs, p);
    let q = skip_ws(cs, p);
    if opens_comment(cs, q) {
        lemma_closer_from(cs, q + 2);
        let e = closer_from(cs, q + 2);
        if e < cs.len() {
            lemma_trivia_end(cs, e + 2);
        }
    }
}

/// Scanning a token where characters remain moves forward and stays in the text.
pub proof fn lemma_scan_advances(cs: Seq<char>, p: int)
    requires
        0 <= p < cs.len(),
    ensures
        p < scan(cs, p).1 <= cs.len(),
{
    lemma_trivia_end(cs, p);
    if let Some(q) = trivia_end(cs, p) {
        if q < cs.len() {
            let c = cs[q];
            if symbol(c, char_at(cs, q + 1)).is_none() {
                if c == '"' {
                    lemma_quote_from(cs, q + 1);
                } else if ident_char(c) {
                    lemma_ident_end(cs, q + 1);
                } else if is_digit(c) {
                    lemma_digits_end(cs, q + 1);
                }
            }
        }
    }
}

pub proof fn lemma_quote_from(cs: Seq<char>, p: int)
    requires
        0 <= p,
    ensures
        p <= quote_from(cs, p) <= cs.len() || quote_from(cs, p) == cs.len(),
        quote_from(cs, p) < cs.len() ==> cs[quote_from(cs, p)] == '"',
    decreases cs.len() - p,
{
    if 0 <= p < cs.len() && cs[p] != '"' {
        lemma_quote_from(cs, p + 1);
    }
}

pub proof fn lemma_ident_end(cs: Seq<char>, p: int)
    requires
        0 <= p <= cs.len(),
    ensures
        p <= ident_end(cs, p) <= cs.len(),
    decreases cs.len() - p,
{
    if p < cs.len() && ident_char(cs[p]) {
        lemma_ident_end(cs, p + 1);
    }
}

pub proof fn lemma_digits_end(cs: Seq<char>, p: int)
    requires
        0 <= p <= cs.len(),
    ensures
        p <= digits_end(cs, p) <= cs.len(),
    decreases cs.len() - p,
{
    if p < cs.len() && is_digit(cs[p]) {
        lemma_digits_end(cs, p + 1);
    }
}

/// The end marker is the last token scanned, if it is scanned at all.
pub proof fn lemma_scan_from_end_marker(cs: Seq<char>, p: int)
    ensures
        scan_from(cs, p) matches Ok(ts) ==> forall|i: int|
            0 <= i < ts.len() - 1 ==> ts[i] != TokenV::Plain(Token::EOF),
    decreases cs.len() - p,
{
    if 0 <= p < cs.len() {
        if let Ok(t) = scan(cs, p).0 {
            let np = scan(cs, p).1;
            if p < np <= cs.len() {
                lemma_scan_from_end_marker(cs, np);
                if t == TokenV::Plain(Token::EOF) {
                    lemma_trivia_end(cs, p);
                    assert(np >= cs.len());
                    assert(scan_from(cs, np) == Ok::<Seq<TokenV>, LexError>(Seq::empty()));
                }
                if let Ok(ts) = scan_from(cs, np) {
                    assert forall|i: int| 0 <= i < ts.len() ==> (seq![t] + ts)[i + 1] == ts[i] by {}
                }
            }
        }
    }
}

/// Every token sequence that scanning produces is non-empty and ends with
/// exactly one end marker.
pub proof fn lemma_tokens_end_with_one_marker(cs: Seq<char>, p: int)
    ensures
        tokens_from(cs, p) matches Ok(ts) ==> {
            &&& ts.len() >= 1
            &&& ts.last() == TokenV::Plain(Token::EOF)
            &&& forall|i: int| 0 <= i < ts.len() - 1 ==> ts[i] != TokenV::Plain(Token::EOF)
        },
{
    lemma_scan_from_end_marker(cs, p);
}

impl Lexer {
    /// The position lies within the text.
    pub open spec fn wf(&self) -> bool {
        self.pos <= self.chars@.len()
    }

    /// Instantiates a new lexer at the start of a text.
    pub fn new(file_string: &str) -> (r: Lexer)
        ensures
            r.chars@ == file_string@,
            r.pos == 0,
            r.wf(),
    {
        Lexer { chars: chars_of(file_string), pos: 0 }
    }

    /// Consumes and returns the next character, if any.
    pub fn read_char(&mut self) -> (r: Option<char>)
        requires
            old(self).wf(),
        ensures
            final(self).wf(),
            final(self).chars == old(self).chars,
            r == char_at(old(self).chars@, old(self).pos as int),
            final(self).pos == (if old(self).pos < old(self).chars@.len() {
                old(self).pos + 1
            } else {
                old(self).pos as int
            }),
    {
        if self.pos < self.chars.len() {
            let c = self.chars[self.pos];
            self.pos = self.pos + 1;
            Some(c)
        } else {
            None
        }
    }

    /// Returns the next character without consuming it.
    pub fn peek_char(&self) -> (r: Option<char>)
        requires
            self.wf(),
        ensures
            r == char_at(self.chars@, self.pos as int),
    {
        self.char_at(self.pos)
    }

    fn char_at(&self, i: usize) -> (r: Option<char>)
        ensures
            r == char_at(self.chars@, i as int),
    {
        if i < self.chars.len() {
            Some(self.chars[i])
        } else {
            None
        }
    }

    /// Consumes all whitespace characters ahead.
    pub fn skip_whitespace(&mut self)
        requires
            old(self).wf(),
        ensures
            final(self).wf(),
            final(self).chars == old(self).chars,
            final(self).pos == skip_ws(old(self).chars@, old(self).pos as int),
    {
        while self.pos < self.chars.len() && is_whitespace(self.chars[self.pos])
            invariant
                self.wf(),
                self.chars == old(self).chars,
                skip_ws(self.chars@, self.pos as int) == skip_ws(
                    old(self).chars@,
                    old(self).pos as int,
                ),
            decreases self.chars@.len() - self.pos,
        {
            self.pos = self.pos + 1;
        }
    }

    /// Reads the rest of a keyword, variable or function name whose first
    /// character was consumed.
    pub fn read_identifier(&mut self, first_letter: char) -> (r: String)
        requires
            old(self).wf(),
        ensures
            final(self).wf(),
            final(self).chars == old(self).chars,
            final(self).pos == ident_end(old(self).chars@, old(self).pos as int),
            r@ == seq![first_letter] + old(self).chars@.subrange(
                old(self).pos as int,
                final(self).pos as int,
            ),
    {
        let start = self.pos;
        while self.pos < self.chars.len() && (is_alphabetic(self.chars[self.pos])
            || self.chars[self.pos] == '_')
            invariant
                self.wf(),
                start <= self.pos,
                self.chars == old(self).chars,
                start == old(self).pos,
                ident_end(self.chars@, self.pos as int) == ident_end(
                    old(self).chars@,
                    start as int,
                ),
            decreases self.chars@.len() - self.pos,
        {
            self.pos = self.pos + 1;
        }
        let mut word: Vec<char> = Vec::new();
        word.push(first_letter);
        let mut i: usize = start;
        while i < self.pos
            invariant
                start <= i <= self.pos <= self.chars@.len(),
                word@ == seq![first_letter] + self.chars@.subrange(start as int, i as int),
            decreases self.pos - i,
        {
            word.push(self.chars[i]);
            assert(self.chars@.subrange(start as int, i + 1) == self.chars@.subrange(
                start as int,
                i as int,
            ).push(self.chars@[i as int]));
            i = i + 1;
        }
        string_of(word.as_slice())
    }

    /// Reads the rest of a string literal whose opening quote was consumed,
    /// and the closing quote; `None` where the text ends first.
    pub fn read_string(&mut self) -> (r: Option<String>)
        requires
            old(self).wf(),
        ensures
            final(self).wf(),
            final(self).chars == old(self).chars,
            ({
                let cs = old(self).chars@;
                let e = quote_from(cs, old(self).pos as int);
                if e >= cs.len() {
                    r is None && final(self).pos == cs.len()
                } else {
                    r matches Some(s) && s@ == cs.subrange(old(self).pos as int, e)
                        && final(self).pos == e + 1
                }
            }),
    {
        let start = self.pos;
        while self.pos < self.chars.len() && self.chars[self.pos] != '"'
            invariant
                self.wf(),
                start <= self.pos,
                self.chars == old(self).chars,
                start == old(self).pos,
                quote_from(self.chars@, self.pos as int) == quote_from(
                    old(self).chars@,
                    start as int,
                ),
            decreases self.chars@.len() - self.pos,
        {
            self.pos = self.pos + 1;
        }
        if self.pos >= self.chars.len() {
            return None;
        }
        let s = string_of(&self.chars.as_slice()[start..self.pos]);
        self.pos = self.pos + 1;
        Some(s)
    }

    /// Reads the rest of an integer literal whose first digit was consumed;
    /// `None` where its value does not fit in an `i64`.
    pub fn read_number(&mut self, first_chr: char) -> (r: Option<i64>)
        requires
            old(self).wf(),
            is_digit(first_chr),
        ensures
            final(self).wf(),
            final(self).chars == old(self).chars,
            final(self).pos == digits_end(old(self).chars@, old(self).pos as int),
            ({
                let v = digits_value(
                    seq![first_chr] + old(self).chars@.subrange(
                        old(self).pos as int,
                        final(self).pos as int,
                    ),
                );
                if v <= i64::MAX {
                    r == Some(v as i64)
                } else {
                    r is None
                }
            }),
    {
        let start = self.pos;
        let ghost cs = self.chars@;
        let mut value: i64 = (first_chr as u32 - '0' as u32) as i64;
        let mut over = false;
        proof {
            let ds = seq![first_chr];
            assert(ds.drop_last() =~= Seq::<char>::empty());
            assert(ds + cs.subrange(start as int, start as int) =~= ds);
            assert(digits_value(ds) == digits_value(ds.drop_last()) * 10 + (first_chr as int
                - '0' as int));
        }
        while self.pos < self.chars.len() && '0' <= self.chars[self.pos] && self.chars[self.pos]
            <= '9'
            invariant
                self.wf(),
                start <= self.pos,
                self.chars == old(self).chars,
                cs == self.chars@,
                start == old(self).pos,
                digits_end(cs, self.pos as int) == digits_end(cs, start as int),
                ({
                    let v = digits_value(
                        seq![first_chr] + cs.subrange(start as int, self.pos as int),
                    );
                    &&& v >= 0
                    &&& over ==> v > i64::MAX
                    &&& !over ==> v == value
                }),
            decreases self.chars@.len() - self.pos,
        {
            let c = self.chars[self.pos];
            let d = (c as u32 - '0' as u32) as i64;
            let ghost before = seq![first_chr] + cs.subrange(start as int, self.pos as int);
            let ghost after = seq![first_chr] + cs.subrange(start as int, self.pos + 1);
            proof {
                assert(after.drop_last() =~= before);
                assert(after.last() == c);
            }
            if !over {
                if value <= (i64::MAX - d) / 10 {
                    assert(value * 10 + d <= i64::MAX) by (nonlinear_arith)
                        requires
                            value <= (i64::MAX - d) / 10,
                            0 <= d <= 9,
                    ;
                    value = value * 10 + d;
                } else {
                    assert(value * 10 + d > i64::MAX) by (nonlinear_arith)
                        requires
                            value > (i64::MAX - d) / 10,
                            0 <= d <= 9,
                    ;
                    over = true;
                }
            }
            self.pos = self.pos + 1;
        }
        if over {
            None
        } else {
            Some(value)
        }
    }

    /// The position of the first `*/` at or after `from`, or the length.
    fn find_closer(&self, from: usize) -> (r: usize)
        ensures
            r == closer_from(self.chars@, from as int),
    {
        let mut i = from;
        while i < self.chars.len() && i + 1 < self.chars.len() && !(self.chars[i] == '*'
            && self.chars[i + 1] == '/')
            invariant
                from <= i,
                closer_from(self.chars@, i as int) == closer_from(self.chars@, from as int),
            decreases self.chars@.len() - i,
        {
            i = i + 1;
        }
        if i < self.chars.len() && i + 1 < self.chars.len() {
            i
        } else {
            self.chars.len()
        }
    }

    /// Reads from the text to create the next token.
    pub fn next_token(&mut self) -> (r: Result<Token, LexError>)
        requires
            old(self).wf(),
        ensures
            final(self).wf(),
            final(self).chars == old(self).chars,
            (result_view(r), final(self).pos as int) == scan(
                old(self).chars@,
                old(self).pos as int,
            ),
    {
        let ghost cs = self.chars@;
        let ghost mut mark = self.pos as int;
        loop
            invariant_except_break
                self.pos == mark,
            invariant
                self.wf(),
                self.chars == old(self).chars,
                cs == self.chars@,
                0 <= mark <= cs.len(),
                trivia_end(cs, mark) == trivia_end(cs, old(self).pos as int),
            ensures
                self.wf(),
                self.chars == old(self).chars,
                trivia_end(cs, old(self).pos as int) == Some(self.pos as int),
            decreases cs.len() - self.pos,
        {
            self.skip_whitespace();
            proof {
                lemma_skip_ws(cs, mark);
            }
            if self.chars.len() > 1 && self.pos < self.chars.len() - 1 && self.chars[self.pos]
                == '/' && self.chars[self.pos + 1] == '*' {
                let e = self.find_closer(self.pos + 2);
                proof {
                    lemma_closer_from(cs, self.pos + 2);
                }
                if e >= self.chars.len() {
                    self.pos = self.chars.len();
                    return Err(LexError::UnterminatedComment);
                }
                self.pos = e + 2;
                proof {
                    mark = e + 2;
                }
            } else {
                break ;
            }
        }
        if self.pos >= self.chars.len() {
            return Ok(Token::EOF);
        }
        let q = self.pos;
        let c = self.chars[q];
        let next = self.char_at(q + 1);
        if let Some(pair) = symbol_token(c, next) {
            self.pos = q + pair.1;
            return Ok(pair.0);
        }
        self.pos = q + 1;
        proof {
            lemma_quote_from(cs, q + 1);
            lemma_ident_end(cs, q + 1);
            lemma_digits_end(cs, q + 1);
        }
        if c == '"' {
            match self.read_string() {
                Some(s) => Ok(Token::STRING(s)),
                None => Err(LexError::UnterminatedString),
            }
        } else if c == '_' || is_alphabetic(c) {
            let word = self.read_identifier(c);
            assert(seq![c] + cs.subrange(q + 1, self.pos as int) =~= cs.subrange(
                q as int,
                self.pos as int,
            ));
            Ok(lookup_word_of(&word))
        } else if '0' <= c && c <= '9' {
            let n = self.read_number(c);
            assert(seq![c] + cs.subrange(q + 1, self.pos as int) =~= cs.subrange(
                q as int,
                self.pos as int,
            ));
            match n {
                Some(v) => Ok(Token::INT(v)),
                None => Err(LexError::IntegerOverflow),
            }
        } else {
            let mut one: Vec<char> = Vec::new();
            one.push(c);
            assert(one@ =~= seq![c]);
            Ok(Token::ILLEGAL(string_of(one.as_slice())))
        }
    }

    /// Scans the rest of the text and returns its tokens as a stack: the end
    /// marker comes first and the first token of the text last, so that the
    /// parser takes them from the end.
    pub fn lex(&mut self) -> (r: Result<Vec<Token>, LexError>)
        requires
            old(self).wf(),
        ensures
            final(self).wf(),
            final(self).chars == old(self).chars,
            match tokens_from(old(self).chars@, old(self).pos as int) {
                Ok(ts) => r matches Ok(v) && views(v@) == reversed(ts),
                Err(e) => r == Err::<Vec<Token>, LexError>(e),
            },
            r matches Ok(v) ==> {
                &&& v@.len() >= 1
                &&& v@[0] == Token::EOF
                &&& forall|i: int| 1 <= i < v@.len() ==> v@[i] != Token::EOF
            },
    {
        proof {
            lemma_tokens_end_with_one_marker(self.chars@, self.pos as int);
        }
        let ghost cs = self.chars@;
        let ghost p0 = self.pos as int;
        let mut token_vec: Vec<Token> = Vec::new();
        let mut bad: Option<char> = None;
        while self.pos < self.chars.len()
            invariant
                self.wf(),
                self.chars == old(self).chars,
                cs == self.chars@,
                p0 == old(self).pos,
                match scan_from(cs, self.pos as int) {
                    Ok(rest) => scan_from(cs, p0) == Ok::<Seq<TokenV>, LexError>(
                        views(token_vec@) + rest,
                    ),
                    Err(e) => scan_from(cs, p0) == Err::<Seq<TokenV>, LexError>(e),
                },
                bad == match first_illegal(views(token_vec@)) {
                    Some(i) => Some(views(token_vec@)[i]->Illegal_0[0]),
                    None => None::<char>,
                },
            decreases cs.len() - self.pos,
        {
            let ghost before = self.pos as int;
            let ghost done = views(token_vec@);
            proof {
                lemma_scan_advances(cs, before);
            }
            let t = self.next_token();
            match t {
                Err(e) => {
                    return Err(e);
                },
                Ok(tok) => {
                    if bad.is_none() {
                        if let Token::ILLEGAL(text) = &tok {
                            assert(text@.len() == 1);
                            let tc = chars_of(text.as_str());
                            bad = Some(tc[0]);
                        }
                    }
                    token_vec.push(tok);
                    proof {
                        let v = views(token_vec@);
                        assert(v.drop_last() =~= done);
                        assert(v =~= done + seq![tok@]);
                        assert(v[v.len() - 1] == tok@);
                        if let Some(i) = first_illegal(done) {
                            lemma_first_illegal_bound(done);
                            assert(v[i] == done[i]);
                        }
                        match scan_from(cs, self.pos as int) {
                            Ok(rest) => {
                                assert(done + seq![tok@] + rest =~= done + (seq![tok@] + rest));
                            },
                            Err(e) => {},
                        }
                    }
                },
            }
        }
        let ghost ts = views(token_vec@);
        proof {
            assert(scan_from(cs, self.pos as int) == Ok::<Seq<TokenV>, LexError>(Seq::empty()));
            assert(ts + Seq::<TokenV>::empty() =~= ts);
        }
        let ends = match token_vec.last() {
            Some(Token::EOF) => true,
            _ => false,
        };
        if !ends {
            token_vec.push(Token::EOF);
            proof {
                assert(views(token_vec@).drop_last() =~= ts);
            }
        }
        proof {
            assert(views(token_vec@) =~= with_end(ts));
            if !ends {
                let v = views(token_vec@);
                assert(v.drop_last() =~= ts);
                if let Some(i) = first_illegal(ts) {
                    lemma_first_illegal_bound(ts);
                    assert(v[i] == ts[i]);
                }
            }
        }
        if let Some(c) = bad {
            return Err(LexError::IllegalCharacter(c));
        }
        let ghost all = views(token_vec@);
        let mut out: Vec<Token> = Vec::new();
        while token_vec.len() > 0
            invariant
                token_vec@.len() + out@.len() == all.len(),
                forall|i: int| 0 <= i < token_vec@.len() ==> token_vec@[i]@ == all[i],
                forall|i: int| 0 <= i < out@.len() ==> out@[i]@ == all[all.len() - 1 - i],
            decreases token_vec@.len(),
        {
            let t = token_vec.pop().unwrap();
            out.push(t);
        }
        assert(views(out@) =~= reversed(all));
        assert forall|i: int| 1 <= i < out@.len() implies out@[i] != Token::EOF by {
            assert(out@[i]@ == all[all.len() - 1 - i]);
        }
        Ok(out)
    }
} // impl Lexer

/// Maps a scanned word to its keyword token or an identifier.
fn lookup_word_of(word: &String) -> (r: Token)
    ensures
        r@ == word_token(word@),
{
    crate::token::lookup_ident(word.as_str())
}

/// The token that a character forms, alone or with the one that follows it.
fn symbol_token(c: char, next: Option<char>) -> (r: Option<(Token, usize)>)
    ensures
        match symbol(c, next) {
            Some((t, n)) => r == Some((t, n as usize)),
            None => r is None,
        },
{
    let is_eq = match next {
        Some(n) => n == '=',
        None => false,
    };
    if c == '=' {
        if is_eq { Some((Token::EQ, 2)) } else { Some((Token::ASSIGN, 1)) }
    } else if c == '!' {
        if is_eq { Some((Token::NEQ, 2)) } else { Some((Token::BANG, 1)) }
    } else if c == '<' {
        if is_eq { Some((Token::LEQ, 2)) } else { Some((Token::LE, 1)) }
    } else if c == '>' {
        if is_eq { Some((Token::GEQ, 2)) } else { Some((Token::GR, 1)) }
    } else if c == ':' {
        match next {
            Some('3') => Some((Token::SEMICOLON, 2)),
            _ => None,
        }
    } else if c == ',' {
        Some((Token::COMMA, 1))
    } else if c == ';' {
        Some((Token::SEMICOLON, 1))
    } else if c == '+' {
        Some((Token::PLUS, 1))
    } else if c == '-' {
        Some((Token::MINUS, 1))
    } else if c == '%' {
        Some((Token::MOD, 1))
    } else if c == '*' {
        Some((Token::ASTERISK, 1))
    } else if c == '/' {
        Some((Token::SLASH, 1))
    } else if c == '(' {
        Some((Token::LPAR, 1))
    } else if c == ')' {
        Some((Token::RPAR, 1))
    } else if c == '{' {
        Some((Token::LBRA, 1))
    } else if c == '}' {
        Some((Token::RBRA, 1))
    } else {
        None
    }
}

} // verus!
