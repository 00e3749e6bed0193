//! The scanner: a read-only view of the source text and a cursor, advanced
//! one token per call of `next_token`.
//!
//! The model works in characters, not bytes: the source is viewed as a
//! `Seq<char>` and the cursor is a character index, so it can never land
//! inside a multi-byte character.

use vstd::prelude::*;
use vstd::string::StrSliceExecFns;
use crate::token::Token;
use crate::token::TokenModel;
use crate::token::LexError;

verus! {

/// Whether `c` has the Unicode `White_Space` property (the set that
/// `char::is_whitespace` recognises).
pub open spec fn is_space(c: char) -> bool {
    let u = c as u32;
    (9 <= u && u <= 13) || u == 32 || u == 0x85 || u == 0xA0 || u == 0x1680
        || (0x2000 <= u && u <= 0x200A) || u == 0x2028 || u == 0x2029 || u == 0x202F
        || u == 0x205F || u == 0x3000
}

/// Whether `c` is a decimal digit.
pub open spec fn is_digit(c: char) -> bool {
    48 <= c as u32 && c as u32 <= 57
}

/// What `char::is_alphabetic` returns on a character beyond ASCII:
/// membership in the Unicode `Alphabetic` set, a function of the
/// character alone.
pub uninterp spec fn is_alpha_beyond_ascii(c: char) -> bool;

/// What `char::is_alphanumeric` returns on a character beyond ASCII:
/// `Alphabetic` or a Unicode number, a function of the character alone.
pub uninterp spec fn is_alnum_beyond_ascii(c: char) -> bool;

/// Whether `c` is alphabetic: over ASCII exactly the letters, beyond
/// ASCII the Unicode `Alphabetic` set.
pub open spec fn is_alpha(c: char) -> bool {
    let u = c as u32;
    if u < 128 {
        (65 <= u && u <= 90) || (97 <= u && u <= 122)
    } else {
        is_alpha_beyond_ascii(c)
    }
}

/// Whether `c` is alphanumeric: over ASCII the letters and digits, beyond
/// ASCII the Unicode `Alphabetic` set and the Unicode numbers.
pub open spec fn is_alnum(c: char) -> bool {
    if (c as u32) < 128 {
        is_alpha(c) || is_digit(c)
    } else {
        is_alnum_beyond_ascii(c)
    }
}

fn space_char(c: char) -> (r: bool)
    ensures
        r == is_space(c),
{
    let u = c as u32;
    (9 <= u && u <= 13) || u == 32 || u == 0x85 || u == 0xA0 || u == 0x1680
        || (0x2000 <= u && u <= 0x200A) || u == 0x2028 || u == 0x2029 || u == 0x202F
        || u == 0x205F || u == 0x3000
}

fn digit_char(c: char) -> (r: bool)
    ensures
        r == is_digit(c),
{
    let u = c as u32;
    48 <= u && u <= 57
}

/// Relies on `char::is_alphabetic`: membership in the Unicode `Alphabetic`
/// set, which over ASCII is exactly the letters and depends on the
/// character alone.
#[verifier::external_body]
fn alphabetic_char(c: char) -> (r: bool)
    ensures
        r == is_alpha(c),
        (c as u32) >= 128 ==> r == is_alpha_beyond_ascii(c),
{
    c.is_alphabetic()
}

/// Relies on `char::is_alphanumeric`: `Alphabetic` or a Unicode number,
/// which over ASCII is exactly the letters and digits and depends on the
/// character alone.
#[verifier::external_body]
fn alphanumeric_char(c: char) -> (r: bool)
    ensures
        r == is_alnum(c),
        (c as u32) >= 128 ==> r == is_alnum_beyond_ascii(c),
{
    c.is_alphanumeric()
}

/// The first index at or after `i` whose character is not whitespace, or
/// `s.len()` if only whitespace remains.
pub open spec fn ws_end(s: Seq<char>, i: int) -> int
    decreases s.len() - i,
{
    if 0 <= i && i < s.len() && is_space(s[i]) {
        ws_end(s, i + 1)
    } else {
        i
    }
}

/// The end of the maximal run of decimal digits starting at `i`.
pub open spec fn digits_end(s: Seq<char>, i: int) -> int
    decreases s.len() - i,
{
    if 0 <= i && i < s.len() && is_digit(s[i]) {
        digits_end(s, i + 1)
    } else {
        i
    }
}

/// The end of the maximal run of identifier characters (alphanumerics and
/// underscores) starting at `i`.
pub open spec fn ident_end(s: Seq<char>, i: int) -> int
    decreases s.len() - i,
{
    if 0 <= i && i < s.len() && (is_alnum(s[i]) || s[i] == '_') {
        ident_end(s, i + 1)
    } else {
        i
    }
}

/// The first index at or after `i` holding a `"`, or `s.len()` if none.
pub open spec fn quote_end(s: Seq<char>, i: int) -> int
    decreases s.len() - i,
{
    if 0 <= i && i < s.len() && s[i] != '"' {
        quote_end(s, i + 1)
    } else {
        i
    }
}

/// The first index at or after `i` holding a line feed, or `s.len()` if the
/// line runs to end of input.
pub open spec fn line_end(s: Seq<char>, i: int) -> int
    decreases s.len() - i,
{
    if 0 <= i && i < s.len() && s[i] != '\n' {
        line_end(s, i + 1)
    } else {
        i
    }
}

/// The first index `k` at or after `i` where the two-character sequence
/// `*/` starts, or `s.len()` if there is none.
pub open spec fn block_end(s: Seq<char>, i: int) -> int
    decreases s.len() - i,
{
    if i < 0 {
        i
    } else if i + 1 < s.len() {
        if s[i] == '*' && s[i + 1] == '/' {
            i
        } else {
            block_end(s, i + 1)
        }
    } else {
        s.len() as int
    }
}

/// The value of a sequence of decimal digits read as a base-10 numeral.
pub open spec fn digits_val(s: Seq<char>) -> int
    decreases s.len(),
{
    if s.len() == 0 {
        0
    } else {
        digits_val(s.drop_last()) * 10 + (s.last() as u32 - 48)
    }
}

proof fn lemma_digits_end_props(s: Seq<char>, i: int)
    requires
        0 <= i <= s.len(),
    ensures
        i <= digits_end(s, i) <= s.len(),
        forall|k: int| i <= k < digits_end(s, i) ==> is_digit(s[k]),
    decreases s.len() - i,
{
    if i < s.len() && is_digit(s[i]) {
        lemma_digits_end_props(s, i + 1);
    }
}

proof fn lemma_digits_val_nonneg(s: Seq<char>)
    requires
        forall|k: int| 0 <= k < s.len() ==> is_digit(s[k]),
    ensures
        digits_val(s) >= 0,
    decreases s.len(),
{
    if s.len() > 0 {
        assert(forall|k: int| 0 <= k < s.drop_last().len() ==> is_digit(s.drop_last()[k]));
        lemma_digits_val_nonneg(s.drop_last());
    }
}

/// Appending one more digit multiplies the value by ten and adds it.
proof fn lemma_digits_val_step(s: Seq<char>, start: int, p: int)
    requires
        0 <= start <= p < s.len(),
    ensures
        digits_val(s.subrange(start, p + 1)) == digits_val(s.subrange(start, p)) * 10 + (
        s[p] as u32 - 48),
{
    let a = s.subrange(start, p + 1);
    assert(a.drop_last() =~= s.subrange(start, p));
    assert(a.last() == s[p]);
}

/// A numeral's value never shrinks as more digits are read.
proof fn lemma_digits_val_monotone(s: Seq<char>, start: int, i: int, j: int)
    requires
        0 <= start <= i <= j <= s.len(),
        forall|k: int| start <= k < j ==> is_digit(s[k]),
    ensures
        digits_val(s.subrange(start, i)) <= digits_val(s.subrange(start, j)),
    decreases j - i,
{
    if i < j {
        assert(forall|k: int| 0 <= k < s.subrange(start, i).len() ==> is_digit(
            s.subrange(start, i)[k],
        ));
        lemma_digits_val_nonneg(s.subrange(start, i));
        lemma_digits_val_step(s, start, i);
        lemma_digits_val_monotone(s, start, i + 1, j);
    }
}

/// What one call of `next_token` does from position `start` of source `s`:
/// either a token and the cursor position after it, or a lexical error.
pub ghost enum ScanStep {
    Token { t: TokenModel, end: int },
    Error { e: LexError },
}

/// The scanning relation: skip whitespace, then dispatch on the first
/// remaining character exactly as `next_token` does.
pub open spec fn spec_scan(s: Seq<char>, start: int) -> ScanStep
    recommends
        0 <= start <= s.len(),
{
    let i = ws_end(s, start);
    if i >= s.len() {
        ScanStep::Token { t: TokenModel::EndOfFile, end: s.len() as int }
    } else {
        let c = s[i];
        if c == '"' {
            let q = quote_end(s, i + 1);
            if q >= s.len() {
                ScanStep::Error { e: LexError::UnterminatedString }
            } else {
                ScanStep::Token { t: TokenModel::StringLiteral(s.subrange(i + 1, q)), end: q + 1 }
            }
        } else if is_digit(c) {
            let d = digits_end(s, i);
            let v = digits_val(s.subrange(i, d));
            if v > i64::MAX as int {
                ScanStep::Error { e: LexError::NumberOverflow }
            } else {
                ScanStep::Token { t: TokenModel::Number(v), end: d }
            }
        } else if c == '+' {
            ScanStep::Token { t: TokenModel::Plus, end: i + 1 }
        } else if c == '-' {
            ScanStep::Token { t: TokenModel::Minus, end: i + 1 }
        } else if c == '*' {
            ScanStep::Token { t: TokenModel::Multiply, end: i + 1 }
        } else if c == '/' {
            if i + 1 < s.len() && s[i + 1] == '/' {
                let e = line_end(s, i + 2);
                ScanStep::Token { t: TokenModel::Comment(s.subrange(i + 2, e)), end: e }
            } else if i + 1 < s.len() && s[i + 1] == '*' {
                let b = block_end(s, i + 2);
                if b >= s.len() {
                    ScanStep::Error { e: LexError::UnterminatedBlockComment }
                } else {
                    ScanStep::Token { t: TokenModel::BlockComment(s.subrange(i + 2, b)), end: b + 2 }
                }
            } else {
                ScanStep::Token { t: TokenModel::Divide, end: i + 1 }
            }
        } else if c == '.' {
            ScanStep::Token { t: TokenModel::Dot, end: i + 1 }
        } else if c == '(' {
            ScanStep::Token { t: TokenModel::LParen, end: i + 1 }
        } else if c == ')' {
            ScanStep::Token { t: TokenModel::RParen, end: i + 1 }
        } else if c == ';' {
            ScanStep::Token { t: TokenModel::Semicolon, end: i + 1 }
        } else if is_alpha(c) {
            let d = ident_end(s, i);
            let text = s.subrange(i, d);
            if text == "System"@ {
                ScanStep::Token { t: TokenModel::System, end: d }
            } else if text == "log"@ {
                ScanStep::Token { t: TokenModel::Log, end: d }
            } else {
                ScanStep::Token { t: TokenModel::Identifier(text), end: d }
            }
        } else {
            ScanStep::Error { e: LexError::UnexpectedCharacter(c) }
        }
    }
}

/// The scanner over a borrowed source text. `pos` is the cursor: the index,
/// in characters, of the next character to classify. `len` caches the
/// character length of `input`.
pub struct Lexer<'a> {
    pub input: &'a str,
    pub pos: usize,
    pub len: usize,
}

impl<'a> Lexer<'a> {
    /// The scanner's invariant: the cached length is the character length of
    /// the source, and the cursor never passes the end.
    pub open spec fn wf(&self) -> bool {
        self.len == self.input@.len() && self.pos <= self.len
    }

    /// The source text as a sequence of characters.
    pub open spec fn src(&self) -> Seq<char> {
        self.input@
    }

    /// The cursor, as a character index into `src()`.
    pub open spec fn cursor(&self) -> int {
        self.pos as int
    }

    /// A fresh scanner over `input`, with the cursor at the start.
    pub fn new(input: &'a str) -> (r: Lexer<'a>)
        ensures
            r.wf(),
            r.src() == input@,
            r.cursor() == 0,
    {
        let len: usize = input.unicode_len();
        Lexer { input, pos: 0, len }
    }

    /// The character under the cursor, or `None` at end of input.
    fn current_char(&self) -> (r: Option<char>)
        requires
            self.wf(),
        ensures
            r == if self.cursor() < self.src().len() {
                Some(self.src()[self.cursor()])
            } else {
                None::<char>
            },
    {
        if self.pos < self.len {
            Some(self.input.get_char(self.pos))
        } else {
            None
        }
    }

    /// The character one past the cursor, or `None` if there is none.
    fn next_char(&self) -> (r: Option<char>)
        requires
            self.wf(),
        ensures
            r == if self.cursor() + 1 < self.src().len() {
                Some(self.src()[self.cursor() + 1])
            } else {
                None::<char>
            },
    {
        if self.len - self.pos >= 2 {
            Some(self.input.get_char(self.pos + 1))
        } else {
            None
        }
    }

    /// Move the cursor one character forward.
    fn advance(&mut self)
        requires
            old(self).wf(),
            old(self).cursor() < old(self).src().len(),
        ensures
            final(self).wf(),
            final(self).input == old(self).input,
            final(self).cursor() == old(self).cursor() + 1,
    {
        self.pos = self.pos + 1;
    }

    /// Move the cursor past any run of whitespace.
    fn skip_whitespace(&mut self)
        requires
            old(self).wf(),
        ensures
            final(self).wf(),
            final(self).input == old(self).input,
            final(self).cursor() == ws_end(old(self).src(), old(self).cursor()),
            final(self).cursor() >= old(self).cursor(),
    {
        loop
            invariant
                self.wf(),
                self.input == old(self).input,
                old(self).cursor() <= self.cursor(),
                ws_end(old(self).src(), old(self).cursor()) == ws_end(self.src(), self.cursor()),
            decreases self.len - self.pos,
        {
            match self.current_char() {
                Some(c) => {
                    if space_char(c) {
                        self.advance();
                    } else {
                        return ;
                    }
                },
                None => {
                    return ;
                },
            }
        }
    }

    /// Scan a string literal: the cursor is on the opening quote; the
    /// payload is everything up to the next quote, which is consumed too.
    /// Fails when no closing quote follows before end of input.
    fn consume_string(&mut self) -> (r: Result<Token, LexError>)
        requires
            old(self).wf(),
            old(self).cursor() < old(self).src().len(),
            old(self).src()[old(self).cursor()] == '"',
        ensures
            final(self).wf(),
            final(self).input == old(self).input,
            final(self).cursor() >= old(self).cursor(),
            ({
                let s = old(self).src();
                let q = quote_end(s, old(self).cursor() + 1);
                if q >= s.len() {
                    r == Err::<Token, LexError>(LexError::UnterminatedString)
                } else {
                    &&& r matches Ok(t)
                    &&& t@ == TokenModel::StringLiteral(
                        s.subrange(old(self).cursor() + 1, q),
                    )
                    &&& final(self).cursor() == q + 1
                }
            }),
    {
        self.advance();
        let start: usize = self.pos;
        loop
            invariant
                self.wf(),
                self.input == old(self).input,
                start <= self.pos,
                start == old(self).cursor() + 1,
                quote_end(self.src(), start as int) == quote_end(self.src(), self.cursor()),
            decreases self.len - self.pos,
        {
            match self.current_char() {
                Some(c) => {
                    if c == '"' {
                        let end: usize = self.pos;
                        let text = self.input.substring_char(start, end).to_owned();
                        self.advance();
                        return Ok(Token::StringLiteral(text));
                    }
                    self.advance();
                },
                None => {
                    return Err(LexError::UnterminatedString);
                },
            }
        }
    }

    /// Scan a number literal: the cursor is on a digit; the maximal digit
    /// run is read as a base-10 numeral. Fails when the numeral exceeds
    /// `i64::MAX`.
    fn consume_number(&mut self) -> (r: Result<Token, LexError>)
        requires
            old(self).wf(),
            old(self).cursor() < old(self).src().len(),
            is_digit(old(self).src()[old(self).cursor()]),
        ensures
            final(self).wf(),
            final(self).input == old(self).input,
            final(self).cursor() >= old(self).cursor(),
            ({
                let s = old(self).src();
                let d = digits_end(s, old(self).cursor());
                let v = digits_val(s.subrange(old(self).cursor(), d));
                if v > i64::MAX as int {
                    r == Err::<Token, LexError>(LexError::NumberOverflow)
                } else {
                    &&& r matches Ok(t)
                    &&& t@ == TokenModel::Number(v)
                    &&& final(self).cursor() == d
                }
            }),
    {
        let ghost s: Seq<char> = self.input@;
        let start: usize = self.pos;
        let mut val: i64 = 0;
        proof {
            assert(s.subrange(start as int, start as int) =~= Seq::<char>::empty());
        }
        loop
            invariant
                self.wf(),
                self.input == old(self).input,
                s == self.src(),
                start == old(self).cursor(),
                start <= self.pos,
                forall|k: int| start <= k < self.cursor() ==> is_digit(s[k]),
                digits_end(s, start as int) == digits_end(s, self.cursor()),
                0 <= val,
                val as int == digits_val(s.subrange(start as int, self.cursor())),
            decreases self.len - self.pos,
        {
            match self.current_char() {
                Some(c) => {
                    if digit_char(c) {
                        let u: u32 = c as u32;
                        let dv: i64 = (u - 48) as i64;
                        let ghost p: int = self.cursor();
                        proof {
                            lemma_digits_val_step(s, start as int, p);
                        }
                        if val > 922337203685477580i64 || (val == 922337203685477580i64 && dv
                            > 7) {
                            proof {
                                let d = digits_end(s, start as int);
                                assert(digits_end(s, p) == digits_end(s, p + 1));
                                lemma_digits_end_props(s, p + 1);
                                lemma_digits_val_monotone(s, start as int, p + 1, d);
                                assert(digits_val(s.subrange(start as int, p + 1)) > i64::MAX);
                            }
                            return Err(LexError::NumberOverflow);
                        }
                        val = val * 10 + dv;
                        self.advance();
                    } else {
                        return Ok(Token::Number(val));
                    }
                },
                None => {
                    return Ok(Token::Number(val));
                },
            }
        }
    }

    /// Scan an identifier or keyword: the cursor is on an alphabetic
    /// character; the maximal run of alphanumerics and underscores is read
    /// and looked up in the keyword table (`System`, `log`, exact match).
    fn consume_identifier(&mut self) -> (r: Token)
        requires
            old(self).wf(),
            old(self).cursor() < old(self).src().len(),
        ensures
            final(self).wf(),
            final(self).input == old(self).input,
            final(self).cursor() >= old(self).cursor(),
            ({
                let s = old(self).src();
                let d = ident_end(s, old(self).cursor());
                let text = s.subrange(old(self).cursor(), d);
                &&& final(self).cursor() == d
                &&& r@ == if text == "System"@ {
                    TokenModel::System
                } else if text == "log"@ {
                    TokenModel::Log
                } else {
                    TokenModel::Identifier(text)
                }
            }),
    {
        let ghost s: Seq<char> = self.input@;
        let start: usize = self.pos;
        loop
            invariant_except_break
                self.wf(),
                self.input == old(self).input,
                s == self.src(),
                start == old(self).cursor(),
                start <= self.pos,
                ident_end(s, start as int) == ident_end(s, self.cursor()),
            ensures
                self.wf(),
                self.input == old(self).input,
                s == self.src(),
                start == old(self).cursor(),
                start <= self.pos,
                self.cursor() == ident_end(s, start as int),
            decreases self.len - self.pos,
        {
            match self.current_char() {
                Some(c) => {
                    if alphanumeric_char(c) || c == '_' {
                        self.advance();
                    } else {
                        break ;
                    }
                },
                None => {
                    break ;
                },
            }
        }
        let end: usize = self.pos;
        let text = self.input.substring_char(start, end).to_owned();
        if text == String::from_str("System") {
            Token::System
        } else if text == String::from_str("log") {
            Token::Log
        } else {
            Token::Identifier(text)
        }
    }

    /// Scan a line comment: the cursor is on the first of two slashes; the
    /// payload runs up to, and not including, the next line feed or end of
    /// input. The line feed is not consumed.
    fn consume_line_comment(&mut self) -> (r: Token)
        requires
            old(self).wf(),
            old(self).cursor() + 1 < old(self).src().len(),
            old(self).src()[old(self).cursor()] == '/',
            old(self).src()[old(self).cursor() + 1] == '/',
        ensures
            final(self).wf(),
            final(self).input == old(self).input,
            final(self).cursor() >= old(self).cursor(),
            ({
                let s = old(self).src();
                let e = line_end(s, old(self).cursor() + 2);
                &&& final(self).cursor() == e
                &&& r@ == TokenModel::Comment(s.subrange(old(self).cursor() + 2, e))
            }),
    {
        let ghost s: Seq<char> = self.input@;
        self.advance();
        self.advance();
        let start: usize = self.pos;
        loop
            invariant_except_break
                self.wf(),
                self.input == old(self).input,
                s == self.src(),
                start == old(self).cursor() + 2,
                start <= self.pos,
                line_end(s, start as int) == line_end(s, self.cursor()),
            ensures
                self.wf(),
                self.input == old(self).input,
                s == self.src(),
                start == old(self).cursor() + 2,
                start <= self.pos,
                self.cursor() == line_end(s, start as int),
            decreases self.len - self.pos,
        {
            match self.current_char() {
                Some(c) => {
                    if c == '\n' {
                        break ;
                    }
                    self.advance();
                },
                None => {
                    break ;
                },
            }
        }
        let end: usize = self.pos;
        let text = self.input.substring_char(start, end).to_owned();
        Token::Comment(text)
    }

    /// Scan a block comment: the cursor is on the slash of an opening
    /// `/*`; the payload runs up to the first `*/`, which is consumed.
    /// Fails when no `*/` follows before end of input.
    fn consume_block_comment(&mut self) -> (r: Result<Token, LexError>)
        requires
            old(self).wf(),
            old(self).cursor() + 1 < old(self).src().len(),
            old(self).src()[old(self).cursor()] == '/',
            old(self).src()[old(self).cursor() + 1] == '*',
        ensures
            final(self).wf(),
            final(self).input == old(self).input,
            final(self).cursor() >= old(self).cursor(),
            ({
                let s = old(self).src();
                let b = block_end(s, old(self).cursor() + 2);
                if b >= s.len() {
                    r == Err::<Token, LexError>(LexError::UnterminatedBlockComment)
                } else {
                    &&& r matches Ok(t)
                    &&& t@ == TokenModel::BlockComment(
                        s.subrange(old(self).cursor() + 2, b),
                    )
                    &&& final(self).cursor() == b + 2
                }
            }),
    {
        let ghost s: Seq<char> = self.input@;
        self.advance();
        self.advance();
        let start: usize = self.pos;
        loop
            invariant
                self.wf(),
                self.input == old(self).input,
                s == self.src(),
                start == old(self).cursor() + 2,
                start <= self.pos,
                block_end(s, start as int) == block_end(s, self.cursor()),
            decreases self.len - self.pos,
        {
            match self.current_char() {
                Some(c) => {
                    if c == '*' {
                        match self.next_char() {
                            Some(n) => {
                                if n == '/' {
                                    let end: usize = self.pos;
                                    let text = self.input.substring_char(start, end).to_owned();
                                    self.advance();
                                    self.advance();
                                    return Ok(Token::BlockComment(text));
                                }
                                self.advance();
                            },
                            None => {
                                self.advance();
                            },
                        }
                    } else {
                        self.advance();
                    }
                },
                None => {
                    return Err(LexError::UnterminatedBlockComment);
                },
            }
        }
    }

    /// Pull the next token: skip whitespace, then classify what follows and
    /// consume exactly one token, leaving the cursor just past it. Returns
    /// `EndOfFile` once the input is exhausted; a lexical error is fatal and
    /// the scanner must not be used further after one.
    pub fn next_token(&mut self) -> (r: Result<Token, LexError>)
        requires
            old(self).wf(),
        ensures
            final(self).wf(),
            final(self).input == old(self).input,
            final(self).cursor() >= old(self).cursor(),
            match r {
                Ok(t) => spec_scan(old(self).src(), old(self).cursor()) == (ScanStep::Token {
                    t: t@,
                    end: final(self).cursor(),
                }),
                Err(e) => spec_scan(old(self).src(), old(self).cursor()) == (ScanStep::Error {
                    e,
                }),
            },
    {
        self.skip_whitespace();
        match self.current_char() {
            None => Ok(Token::EndOfFile),
            Some(c) => {
                if c == '"' {
                    self.consume_string()
                } else if digit_char(c) {
                    self.consume_number()
                } else if c == '+' {
                    self.advance();
                    Ok(Token::Plus)
                } else if c == '-' {
                    self.advance();
                    Ok(Token::Minus)
                } else if c == '*' {
                    self.advance();
                    Ok(Token::Multiply)
                } else if c == '/' {
                    match self.next_char() {
                        Some(n) => {
                            if n == '/' {
                                Ok(self.consume_line_comment())
                            } else if n == '*' {
                                self.consume_block_comment()
                            } else {
                                self.advance();
                                Ok(Token::Divide)
                            }
                        },
                        None => {
                            self.advance();
                            Ok(Token::Divide)
                        },
                    }
                } else if c == '.' {
                    self.advance();
                    Ok(Token::Dot)
                } else if c == '(' {
                    self.advance();
                    Ok(Token::LParen)
                } else if c == ')' {
                    self.advance();
                    Ok(Token::RParen)
                } else if c == ';' {
                    self.advance();
                    Ok(Token::Semicolon)
                } else if alphabetic_char(c) {
                    Ok(self.consume_identifier())
                } else {
                    Err(LexError::UnexpectedCharacter(c))
                }
            },
        }
    }
}

} // verus!
