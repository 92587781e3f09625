//! The lexer: splits the text of an OBJ or MTL file into tokens.
//!
//! A token is either a newline character on its own, or a maximal run of
//! characters that holds no whitespace, no newline and no `#`. Whitespace
//! (space, tab and backslash) separates tokens, and a `#` starts a comment
//! that runs to the end of the line.
use vstd::prelude::*;
use crate::text::{
    copy_range, is_delimiter_char, is_newline, is_newline_char, is_whitespace, is_whitespace_char,
    is_whitespace_or_newline, opt_chars, str_to_chars, token_is,
};

verus! {

/// The first index at or after `p` that holds no whitespace.
pub open spec fn whitespace_end(s: Seq<char>, p: int) -> int
    decreases s.len() - p,
{
    if 0 <= p < s.len() && is_whitespace_char(s[p]) {
        whitespace_end(s, p + 1)
    } else {
        p
    }
}

/// The first index at or after `p` that holds a newline.
pub open spec fn line_end(s: Seq<char>, p: int) -> int
    decreases s.len() - p,
{
    if 0 <= p < s.len() && !is_newline_char(s[p]) {
        line_end(s, p + 1)
    } else {
        p
    }
}

/// The first index at or after `p` that holds a delimiter.
pub open spec fn word_end(s: Seq<char>, p: int) -> int
    decreases s.len() - p,
{
    if 0 <= p < s.len() && !is_delimiter_char(s[p]) {
        word_end(s, p + 1)
    } else {
        p
    }
}

/// Where a comment that may start at `p` ends.
pub open spec fn comment_end(s: Seq<char>, p: int) -> int {
    if 0 <= p < s.len() && s[p] == '#' {
        line_end(s, p)
    } else {
        p
    }
}

/// Where the next token starts, once whitespace and a comment are skipped.
pub open spec fn token_start(s: Seq<char>, p: int) -> int {
    comment_end(s, whitespace_end(s, p))
}

/// Whether a token is left at or after `p`.
pub open spec fn has_token(s: Seq<char>, p: int) -> bool {
    token_start(s, p) < s.len()
}

/// Where the next token ends.
pub open spec fn token_end(s: Seq<char>, p: int) -> int {
    let b = token_start(s, p);
    if 0 <= b < s.len() && is_newline_char(s[b]) {
        b + 1
    } else {
        word_end(s, b)
    }
}

/// Where the lexer stands once it has looked for the next token.
pub open spec fn after_token(s: Seq<char>, p: int) -> int {
    if has_token(s, p) {
        token_end(s, p)
    } else {
        token_start(s, p)
    }
}

/// The sequence of tokens of `s` from position `p` on.
pub open spec fn tokens_from(s: Seq<char>, p: int) -> Seq<Seq<char>>
    decreases s.len() - p,
{
    if 0 <= p <= s.len() && has_token(s, p) {
        proof {
            lemma_token_bounds(s, p);
        }
        seq![s.subrange(token_start(s, p), token_end(s, p))] + tokens_from(s, token_end(s, p))
    } else {
        seq![]
    }
}

/// The tokens of a whole text.
pub open spec fn tokenize(s: Seq<char>) -> Seq<Seq<char>> {
    tokens_from(s, 0)
}

/// The number of newline characters in `s`.
pub open spec fn newline_count(s: Seq<char>) -> nat
    decreases s.len(),
{
    if s.len() == 0 {
        0
    } else {
        newline_count(s.drop_last()) + if is_newline_char(s.last()) {
            1nat
        } else {
            0nat
        }
    }
}

/// A token the lexer can produce: a single newline character, or a nonempty
/// run of characters without delimiters.
pub open spec fn is_token_shape(t: Seq<char>) -> bool {
    ||| (t.len() == 1 && is_newline_char(t[0]))
    ||| (t.len() > 0 && forall|i: int| 0 <= i < t.len() ==> !is_delimiter_char(#[trigger] t[i]))
}

pub proof fn lemma_whitespace_end(s: Seq<char>, p: int)
    requires
        0 <= p <= s.len(),
    ensures
        p <= whitespace_end(s, p) <= s.len(),
        whitespace_end(s, p) < s.len() ==> !is_whitespace_char(s[whitespace_end(s, p)]),
    decreases s.len() - p,
{
    if p < s.len() && is_whitespace_char(s[p]) {
        lemma_whitespace_end(s, p + 1);
    }
}

pub proof fn lemma_line_end(s: Seq<char>, p: int)
    requires
        0 <= p <= s.len(),
    ensures
        p <= line_end(s, p) <= s.len(),
        line_end(s, p) < s.len() ==> is_newline_char(s[line_end(s, p)]),
    decreases s.len() - p,
{
    if p < s.len() && !is_newline_char(s[p]) {
        lemma_line_end(s, p + 1);
    }
}

pub proof fn lemma_word_end(s: Seq<char>, p: int)
    requires
        0 <= p <= s.len(),
    ensures
        p <= word_end(s, p) <= s.len(),
        word_end(s, p) < s.len() ==> is_delimiter_char(s[word_end(s, p)]),
        forall|k: int| p <= k < word_end(s, p) ==> !is_delimiter_char(#[trigger] s[k]),
    decreases s.len() - p,
{
    if p < s.len() && !is_delimiter_char(s[p]) {
        lemma_word_end(s, p + 1);
    }
}

/// The next token lies after `p`, is nonempty, and has the shape of a token.
pub proof fn lemma_token_bounds(s: Seq<char>, p: int)
    requires
        0 <= p <= s.len(),
    ensures
        p <= token_start(s, p) <= s.len(),
        token_start(s, p) <= token_end(s, p) <= s.len(),
        has_token(s, p) ==> token_start(s, p) < token_end(s, p),
        has_token(s, p) ==> is_token_shape(s.subrange(token_start(s, p), token_end(s, p))),
        !has_token(s, p) ==> token_start(s, p) == s.len(),
        p <= after_token(s, p) <= s.len(),
{
    lemma_whitespace_end(s, p);
    let a = whitespace_end(s, p);
    if a < s.len() && s[a] == '#' {
        lemma_line_end(s, a);
    }
    let b = token_start(s, p);
    lemma_word_end(s, b);
    if has_token(s, p) {
        let t = s.subrange(b, token_end(s, p));
        if !is_newline_char(s[b]) {
            assert(!is_delimiter_char(s[b]));
            assert forall|i: int| 0 <= i < t.len() implies !is_delimiter_char(#[trigger] t[i]) by {
                assert(t[i] == s[b + i]);
            }
        }
    }
}

/// Every token of every text has the shape of a token.
pub proof fn lemma_tokens_shape(s: Seq<char>, p: int)
    requires
        0 <= p <= s.len(),
    ensures
        forall|i: int| 0 <= i < tokens_from(s, p).len() ==> is_token_shape(#[trigger] tokens_from(s, p)[i]),
    decreases s.len() - p,
{
    if has_token(s, p) {
        lemma_token_bounds(s, p);
        lemma_tokens_shape(s, token_end(s, p));
        let rest = tokens_from(s, token_end(s, p));
        assert forall|i: int| 0 <= i < tokens_from(s, p).len() implies is_token_shape(#[trigger] tokens_from(s, p)[i]) by {
            if i > 0 {
                assert(tokens_from(s, p)[i] == rest[i - 1]);
            }
        }
    }
}

/// Every token is as long as it can be: a word token runs up to the next
/// delimiter or the end of the text, and holds no delimiter.
pub proof fn lemma_token_maximal(s: Seq<char>, p: int)
    requires
        0 <= p <= s.len(),
        has_token(s, p),
    ensures
        !is_newline_char(s[token_start(s, p)]) ==> (token_end(s, p) == s.len() || is_delimiter_char(
            s[token_end(s, p)],
        )),
        !is_newline_char(s[token_start(s, p)]) ==> forall|k: int|
            token_start(s, p) <= k < token_end(s, p) ==> !is_delimiter_char(#[trigger] s[k]),
        is_newline_char(s[token_start(s, p)]) ==> token_end(s, p) == token_start(s, p) + 1,
{
    lemma_token_bounds(s, p);
    lemma_word_end(s, token_start(s, p));
}

/// A OBJ file lexer tokenizes an input character stream.
pub struct Lexer {
    /// The current line position in the token stream.
    current_line_number: usize,
    /// The cursor position in the character stream.
    stream_position: usize,
    /// The input stream.
    stream: Vec<char>,
}

impl Lexer {
    /// The text the lexer reads.
    pub closed spec fn input(&self) -> Seq<char> {
        self.stream@
    }

    /// The index of the next character to read.
    pub closed spec fn position(&self) -> int {
        self.stream_position as int
    }

    /// The line the lexer stands on: one more than the newlines it has passed.
    pub closed spec fn line(&self) -> int {
        self.current_line_number as int
    }

    pub closed spec fn wf(&self) -> bool {
        &&& self.stream_position <= self.stream@.len()
        &&& self.stream@.len() < usize::MAX
        &&& self.current_line_number == 1 + newline_count(self.stream@.take(self.stream_position as int))
    }

    /// The tokens the lexer has yet to produce.
    pub open spec fn remaining_tokens(&self) -> Seq<Seq<char>> {
        tokens_from(self.input(), self.position())
    }

    /// Create a new lexer.
    pub fn new(stream: &str) -> (lexer: Lexer)
        requires
            stream@.len() < usize::MAX,
        ensures
            lexer.wf(),
            lexer.input() == stream@,
            lexer.position() == 0,
            lexer.remaining_tokens() == tokenize(stream@),
    {
        let chars = str_to_chars(stream);
        let lexer = Lexer { current_line_number: 1, stream_position: 0, stream: chars };
        assert(lexer.stream@.take(0) =~= Seq::<char>::empty());
        lexer
    }

    /// The character at the current position, without advancing.
    #[inline]
    fn peek(&self) -> (c: Option<char>)
        ensures
            c == (if self.position() < self.input().len() {
                Some(self.input()[self.position()])
            } else {
                None
            }),
    {
        if self.stream_position < self.stream.len() {
            Some(self.stream[self.stream_position])
        } else {
            None
        }
    }

    /// Advances the lexer by one character.
    fn advance(&mut self)
        requires
            old(self).wf(),
            old(self).position() < old(self).input().len(),
        ensures
            final(self).wf(),
            final(self).input() == old(self).input(),
            final(self).position() == old(self).position() + 1,
    {
        let ghost s = self.stream@;
        let ghost p = self.stream_position as int;
        proof {
            assert(s.take(p + 1).drop_last() =~= s.take(p));
            lemma_newline_count_bound(s.take(p));
        }
        match self.peek() {
            Some(ch) => {
                if is_newline(ch) {
                    self.current_line_number += 1;
                }
            },
            None => {},
        }
        self.stream_position += 1;
    }

    /// Skips whitespace; returns the number of characters skipped.
    fn skip_whitespace(&mut self) -> (skipped: usize)
        requires
            old(self).wf(),
        ensures
            final(self).wf(),
            final(self).input() == old(self).input(),
            final(self).position() == whitespace_end(old(self).input(), old(self).position()),
            skipped == final(self).position() - old(self).position(),
    {
        let ghost s = self.stream@;
        let ghost p0 = self.stream_position as int;
        let mut skipped: usize = 0;
        loop
            invariant
                self.wf(),
                self.input() == s,
                0 <= p0 <= self.position() <= s.len() < usize::MAX,
                whitespace_end(s, p0) == whitespace_end(s, self.position()),
                skipped == self.position() - p0,
            ensures
                self.wf(),
                self.input() == s,
                self.position() == whitespace_end(s, p0),
                skipped == self.position() - p0,
            decreases s.len() - self.position(),
        {
            match self.peek() {
                Some(ch) => {
                    if is_whitespace(ch) {
                        self.advance();
                        skipped += 1;
                    } else {
                        break;
                    }
                },
                None => {
                    break;
                },
            }
        }
        skipped
    }

    /// Skips a comment, if one starts here, up to the end of its line.
    fn skip_comment(&mut self) -> (skipped: usize)
        requires
            old(self).wf(),
        ensures
            final(self).wf(),
            final(self).input() == old(self).input(),
            final(self).position() == comment_end(old(self).input(), old(self).position()),
            skipped == final(self).position() - old(self).position(),
    {
        let ghost s = self.stream@;
        let ghost p0 = self.stream_position as int;
        match self.peek() {
            Some(c) => {
                if c != '#' {
                    return 0;
                }
            },
            None => {
                return 0;
            },
        }
        let mut skipped: usize = 0;
        loop
            invariant
                self.wf(),
                self.input() == s,
                0 <= p0 <= self.position() <= s.len() < usize::MAX,
                comment_end(s, p0) == line_end(s, self.position()),
                skipped == self.position() - p0,
            ensures
                self.wf(),
                self.input() == s,
                self.position() == comment_end(s, p0),
                skipped == self.position() - p0,
            decreases s.len() - self.position(),
        {
            match self.peek() {
                Some(ch) => {
                    if !is_newline(ch) {
                        self.advance();
                        skipped += 1;
                    } else {
                        break;
                    }
                },
                None => {
                    break;
                },
            }
        }
        skipped
    }

    /// Skips characters up to the next delimiter.
    fn skip_word(&mut self) -> (skipped: usize)
        requires
            old(self).wf(),
        ensures
            final(self).wf(),
            final(self).input() == old(self).input(),
            final(self).position() == word_end(old(self).input(), old(self).position()),
            skipped == final(self).position() - old(self).position(),
    {
        let ghost s = self.stream@;
        let ghost p0 = self.stream_position as int;
        let mut skipped: usize = 0;
        loop
            invariant
                self.wf(),
                self.input() == s,
                0 <= p0 <= self.position() <= s.len() < usize::MAX,
                word_end(s, p0) == word_end(s, self.position()),
                skipped == self.position() - p0,
            ensures
                self.wf(),
                self.input() == s,
                self.position() == word_end(s, p0),
                skipped == self.position() - p0,
            decreases s.len() - self.position(),
        {
            match self.peek() {
                Some(ch) => {
                    if !(is_whitespace_or_newline(ch) || ch == '#') {
                        self.advance();
                        skipped += 1;
                    } else {
                        break;
                    }
                },
                None => {
                    break;
                },
            }
        }
        skipped
    }

    /// Fetches the next token from the input stream.
    pub fn next_token(&mut self) -> (token: Option<Vec<char>>)
        requires
            old(self).wf(),
        ensures
            final(self).wf(),
            final(self).input() == old(self).input(),
            final(self).position() == after_token(old(self).input(), old(self).position()),
            old(self).remaining_tokens().len() > 0 ==> opt_chars(token) == Some(old(self).remaining_tokens()[0])
                && final(self).remaining_tokens() == old(self).remaining_tokens().drop_first(),
            old(self).remaining_tokens().len() == 0 ==> token is None
                && final(self).remaining_tokens().len() == 0,
    {
        let ghost s = self.stream@;
        let ghost p = self.stream_position as int;
        proof {
            lemma_token_bounds(s, p);
        }
        self.skip_whitespace();
        self.skip_comment();
        let start_position = self.stream_position;
        match self.peek() {
            Some(ch) => {
                if is_newline(ch) {
                    self.advance();
                } else {
                    self.skip_word();
                }
                let token = copy_range(&self.stream, start_position, self.stream_position);
                Some(token)
            },
            None => {
                proof {
                    assert(tokens_from(s, self.position()) =~= Seq::<Seq<char>>::empty());
                }
                None
            },
        }
    }
}

/// A lexer that can look one token ahead.
pub struct ObjectLexer {
    inner: Lexer,
    cache: Option<Option<Vec<char>>>,
}

impl ObjectLexer {
    pub closed spec fn wf(&self) -> bool {
        &&& self.inner.wf()
        &&& (self.cache matches Some(None) ==> self.inner.remaining_tokens().len() == 0)
    }

    /// The tokens this lexer has yet to hand out, the one looked at included.
    pub closed spec fn tokens(&self) -> Seq<Seq<char>> {
        match self.cache {
            Some(Some(t)) => seq![t@] + self.inner.remaining_tokens(),
            Some(None) => seq![],
            None => self.inner.remaining_tokens(),
        }
    }

    pub fn new(lexer: Lexer) -> (r: ObjectLexer)
        requires
            lexer.wf(),
        ensures
            r.wf(),
            r.tokens() == lexer.remaining_tokens(),
    {
        ObjectLexer { inner: lexer, cache: None }
    }

    /// Hands out the next token.
    pub fn next_token(&mut self) -> (token: Option<Vec<char>>)
        requires
            old(self).wf(),
        ensures
            final(self).wf(),
            old(self).tokens().len() > 0 ==> opt_chars(token) == Some(old(self).tokens()[0])
                && final(self).tokens() == old(self).tokens().drop_first(),
            old(self).tokens().len() == 0 ==> token is None && final(self).tokens().len() == 0,
    {
        match self.cache.take() {
            Some(token) => {
                proof {
                    if token is Some {
                        assert(old(self).tokens().drop_first() =~= self.inner.remaining_tokens());
                    }
                }
                token
            },
            None => self.inner.next_token(),
        }
    }

    /// Looks at the next token without handing it out.
    pub fn peek(&mut self) -> (token: Option<Vec<char>>)
        requires
            old(self).wf(),
        ensures
            final(self).wf(),
            final(self).tokens() == old(self).tokens(),
            opt_chars(token) == (if old(self).tokens().len() > 0 {
                Some(old(self).tokens()[0])
            } else {
                None
            }),
    {
        match &self.cache {
            Some(Some(t)) => {
                return Some(copy_all(t));
            },
            Some(None) => {
                return None;
            },
            None => {},
        }
        let next_token = self.inner.next_token();
        let result = match &next_token {
            Some(t) => Some(copy_all(t)),
            None => None,
        };
        self.cache = Some(next_token);
        proof {
            if result is Some {
                assert(self.tokens() =~= old(self).tokens());
            }
        }
        result
    }
}

/// The number of tokens in `ts` that are a line feed.
pub open spec fn newline_tokens(ts: Seq<Seq<char>>) -> nat
    decreases ts.len(),
{
    if ts.len() == 0 {
        0
    } else {
        newline_tokens(ts.drop_first()) + if ts[0] == "\n"@ {
            1nat
        } else {
            0nat
        }
    }
}

/// A token stream that counts the lines it has passed.
pub struct TokenStream {
    line_number: usize,
    lexer: ObjectLexer,
}

impl TokenStream {
    pub closed spec fn wf(&self) -> bool {
        &&& self.lexer.wf()
        &&& self.line_number >= 1
        &&& self.line_number + newline_tokens(self.lexer.tokens()) < usize::MAX
    }

    /// The tokens left to read.
    pub closed spec fn tokens(&self) -> Seq<Seq<char>> {
        self.lexer.tokens()
    }

    /// The current line number.
    pub closed spec fn line(&self) -> nat {
        self.line_number as nat
    }

    /// A stream over the tokens of `input`, on line 1.
    pub fn new(input: &str) -> (r: TokenStream)
        requires
            input@.len() < usize::MAX - 1,
        ensures
            r.wf(),
            r.tokens() == tokenize(input@),
            r.line() == 1,
    {
        let lexer = Lexer::new(input);
        proof {
            lemma_tokens_count(input@, 0);
            lemma_newline_tokens_bound(tokenize(input@));
        }
        TokenStream { line_number: 1, lexer: ObjectLexer::new(lexer) }
    }

    /// The current line number.
    pub fn line_number(&self) -> (n: usize)
        ensures
            n == self.line(),
    {
        self.line_number
    }

    /// The next token, without consuming it.
    pub fn peek(&mut self) -> (token: Option<Vec<char>>)
        requires
            old(self).wf(),
        ensures
            final(self).wf(),
            final(self).tokens() == old(self).tokens(),
            final(self).line() == old(self).line(),
            opt_chars(token) == (if old(self).tokens().len() > 0 {
                Some(old(self).tokens()[0])
            } else {
                None
            }),
    {
        self.lexer.peek()
    }

    /// Consumes the next token; a line feed moves on to the next line.
    pub fn next(&mut self) -> (token: Option<Vec<char>>)
        requires
            old(self).wf(),
        ensures
            final(self).wf(),
            old(self).tokens().len() > 0 ==> opt_chars(token) == Some(old(self).tokens()[0])
                && final(self).tokens() == old(self).tokens().drop_first()
                && final(self).line() == old(self).line() + if old(self).tokens()[0] == "\n"@ {
                    1nat
                } else {
                    0nat
                },
            old(self).tokens().len() == 0 ==> token is None && final(self).tokens().len() == 0
                && final(self).line() == old(self).line(),
    {
        let token = self.lexer.next_token();
        match &token {
            Some(t) => {
                if token_is(t, "\n") {
                    self.line_number += 1;
                }
            },
            None => {},
        }
        token
    }

    /// Consumes the next token, if there is one.
    pub fn advance(&mut self)
        requires
            old(self).wf(),
        ensures
            final(self).wf(),
            final(self).tokens() == (if old(self).tokens().len() > 0 {
                old(self).tokens().drop_first()
            } else {
                old(self).tokens()
            }),
            final(self).line() == old(self).line() + if old(self).tokens().len() > 0
                && old(self).tokens()[0] == "\n"@ {
                1nat
            } else {
                0nat
            },
    {
        self.next();
    }
}

/// A text has no more tokens than characters.
pub proof fn lemma_tokens_count(s: Seq<char>, p: int)
    requires
        0 <= p <= s.len(),
    ensures
        tokens_from(s, p).len() <= s.len() - p,
    decreases s.len() - p,
{
    if has_token(s, p) {
        lemma_token_bounds(s, p);
        lemma_tokens_count(s, token_end(s, p));
    }
}

pub proof fn lemma_newline_tokens_bound(ts: Seq<Seq<char>>)
    ensures
        newline_tokens(ts) <= ts.len(),
    decreases ts.len(),
{
    if ts.len() > 0 {
        lemma_newline_tokens_bound(ts.drop_first());
    }
}

/// What a parsing step does with a token stream, as a function of the tokens:
/// it produces a value, or fails with an error kind and a message, having
/// consumed some tokens; or it is outside the domain on which the parser is
/// defined (the parsers this crate models abort there).
pub enum Parsed<T, K> {
    Done(T, nat),
    Fail(K, Seq<char>, nat),
    Abort,
}

impl<T, K> Parsed<T, K> {
    /// The number of tokens consumed.
    pub open spec fn consumed(self) -> nat {
        match self {
            Parsed::Done(_, n) => n,
            Parsed::Fail(_, _, n) => n,
            Parsed::Abort => 0,
        }
    }

    /// The same failure (or abort), for a step that produces another type.
    pub open spec fn fail_as<U>(self) -> Parsed<U, K> {
        match self {
            Parsed::Done(_, n) => Parsed::Abort,
            Parsed::Fail(k, m, n) => Parsed::Fail(k, m, n),
            Parsed::Abort => Parsed::Abort,
        }
    }

    /// The same outcome, with `n` more tokens consumed before it.
    pub open spec fn after(self, n: nat) -> Parsed<T, K> {
        match self {
            Parsed::Done(v, m) => Parsed::Done(v, m + n),
            Parsed::Fail(k, msg, m) => Parsed::Fail(k, msg, m + n),
            Parsed::Abort => Parsed::Abort,
        }
    }
}

pub proof fn lemma_after_after<T, K>(p: Parsed<T, K>, a: nat, b: nat)
    ensures
        p.after(a).after(b) == p.after(a + b),
{
}

/// A stream that held `ts` on line `line0` now holds `ts1` on line `line1`,
/// having consumed the first `n` tokens.
pub open spec fn advanced(
    ts: Seq<Seq<char>>,
    line0: nat,
    ts1: Seq<Seq<char>>,
    line1: nat,
    n: nat,
) -> bool {
    &&& n <= ts.len()
    &&& ts1 == ts.skip(n as int)
    &&& line1 == line0 + newline_tokens(ts.take(n as int))
}

pub proof fn lemma_newline_tokens_concat(a: Seq<Seq<char>>, b: Seq<Seq<char>>)
    ensures
        newline_tokens(a + b) == newline_tokens(a) + newline_tokens(b),
    decreases a.len(),
{
    if a.len() > 0 {
        assert((a + b).drop_first() =~= a.drop_first() + b);
        lemma_newline_tokens_concat(a.drop_first(), b);
    } else {
        assert(a + b =~= b);
    }
}

/// Consuming `n` tokens and then `m` more is consuming `n + m`.
pub proof fn lemma_advanced_trans(
    ts: Seq<Seq<char>>,
    line0: nat,
    ts1: Seq<Seq<char>>,
    line1: nat,
    n: nat,
    ts2: Seq<Seq<char>>,
    line2: nat,
    m: nat,
)
    requires
        advanced(ts, line0, ts1, line1, n),
        advanced(ts1, line1, ts2, line2, m),
    ensures
        advanced(ts, line0, ts2, line2, n + m),
{
    assert(ts.take((n + m) as int) =~= ts.take(n as int) + ts1.take(m as int));
    lemma_newline_tokens_concat(ts.take(n as int), ts1.take(m as int));
    assert(ts2 =~= ts.skip((n + m) as int));
}

/// Consuming nothing leaves the stream as it was.
pub proof fn lemma_advanced_zero(ts: Seq<Seq<char>>, line0: nat)
    ensures
        advanced(ts, line0, ts, line0, 0),
{
    assert(ts.take(0) =~= Seq::<Seq<char>>::empty());
    assert(ts.skip(0) =~= ts);
}

/// Consuming one token moves on a line when the token is a line feed.
pub proof fn lemma_advanced_one(ts: Seq<Seq<char>>, line0: nat)
    requires
        ts.len() > 0,
    ensures
        advanced(ts, line0, ts.drop_first(), line0 + if ts[0] == "\n"@ {
            1nat
        } else {
            0nat
        }, 1),
{
    assert(ts.take(1).drop_first() =~= Seq::<Seq<char>>::empty());
    assert(newline_tokens(ts.take(1).drop_first()) == 0);
    assert(ts.take(1)[0] == ts[0]);
    assert(ts.skip(1) =~= ts.drop_first());
}

/// A copy of a token.
fn copy_all(t: &Vec<char>) -> (out: Vec<char>)
    ensures
        out@ == t@,
{
    copy_range(t, 0, t.len())
}

proof fn lemma_newline_count_bound(s: Seq<char>)
    ensures
        newline_count(s) <= s.len(),
    decreases s.len(),
{
    if s.len() > 0 {
        lemma_newline_count_bound(s.drop_last());
    }
}

} // verus!
