use vstd::prelude::*;

use crate::error::{opt_tok, LexError};
use crate::token::{Tok, Token};

verus! {

pub open spec fn is_alpha(c: char) -> bool {
    ('a' <= c && c <= 'z') || ('A' <= c && c <= 'Z')
}

pub open spec fn is_digit(c: char) -> bool {
    '0' <= c && c <= '9'
}

pub open spec fn is_ident_char(c: char) -> bool {
    is_alpha(c) || is_digit(c) || c == '_'
}

pub open spec fn is_space(c: char) -> bool {
    c == ' ' || c == '\t' || c == '\n' || c == '\r' || c == '\x0B' || c == '\x0C'
}

/// The first position at or after `pos` that does not hold whitespace.
pub open spec fn skip_ws(text: Seq<char>, pos: int) -> int
    decreases text.len() - pos,
{
    if 0 <= pos < text.len() && is_space(text[pos]) {
        skip_ws(text, pos + 1)
    } else {
        pos
    }
}

/// The end of the run of identifier characters that starts at `pos`.
pub open spec fn ident_end(text: Seq<char>, pos: int) -> int
    decreases text.len() - pos,
{
    if 0 <= pos < text.len() && is_ident_char(text[pos]) {
        ident_end(text, pos + 1)
    } else {
        pos
    }
}

/// The end of the run of digits that starts at `pos`.
pub open spec fn digits_end(text: Seq<char>, pos: int) -> int
    decreases text.len() - pos,
{
    if 0 <= pos < text.len() && is_digit(text[pos]) {
        digits_end(text, pos + 1)
    } else {
        pos
    }
}

/// The base-10 value of the digits `text[start..end]`.
pub open spec fn digits_value(text: Seq<char>, start: int, end: int) -> int
    decreases end - start,
{
    if end <= start {
        0
    } else {
        digits_value(text, start, end - 1) * 10 + (text[end - 1] as int - '0' as int)
    }
}

/// A word is a reserved keyword or else an identifier.
pub open spec fn word_token(word: Seq<char>) -> Tok {
    if word == "PROGRAM"@ {
        Tok::Program
    } else if word == "END_PROGRAM"@ {
        Tok::EndProgram
    } else {
        Tok::Id(word)
    }
}

/// The one-character symbols.
pub open spec fn symbol_token(c: char) -> Option<Tok> {
    if c == ';' {
        Some(Tok::Semicolon)
    } else if c == '+' {
        Some(Tok::Plus)
    } else if c == '-' {
        Some(Tok::Minus)
    } else if c == '*' {
        Some(Tok::Mul)
    } else if c == '/' {
        Some(Tok::Div)
    } else if c == '(' {
        Some(Tok::Lparen)
    } else if c == ')' {
        Some(Tok::Rparen)
    } else {
        None
    }
}

/// One step of the scanner from `pos`: the next token (`None` at the end of
/// the input) and the position just after it, or the error met.
pub open spec fn scan(text: Seq<char>, pos: int) -> Result<(Option<Tok>, int), LexError> {
    let p = skip_ws(text, pos);
    if p < 0 || p >= text.len() {
        Ok((None, p))
    } else {
        let c = text[p];
        if is_alpha(c) {
            let e = ident_end(text, p);
            Ok((Some(word_token(text.subrange(p, e))), e))
        } else if is_digit(c) {
            let e = digits_end(text, p);
            let v = digits_value(text, p, e);
            if v <= i32::MAX {
                Ok((Some(Tok::Integer(v as i32)), e))
            } else {
                Err(LexError::IntegerOverflow { pos: p as usize })
            }
        } else if c == ':' {
            if p + 1 < text.len() && text[p + 1] == '=' {
                Ok((Some(Tok::Assign), p + 2))
            } else {
                Err(LexError::IncompleteAssign { pos: p as usize })
            }
        } else if symbol_token(c) is Some {
            Ok((Some(symbol_token(c)->0), p + 1))
        } else {
            Err(LexError::UnexpectedChar { ch: c, pos: p as usize })
        }
    }
}

/// A call of `get_next_token` at `pos` returned `r` and left the scanner at
/// `next`: the token that `scan` gives, or its error with nothing consumed.
pub open spec fn step_outcome(
    text: Seq<char>,
    pos: int,
    r: Result<Option<Token>, LexError>,
    next: int,
) -> bool {
    match scan(text, pos) {
        Ok((t, p)) => r is Ok && opt_tok(r->Ok_0) == t && next == p,
        Err(e) => r == Err::<Option<Token>, LexError>(e) && next == pos,
    }
}

/// Relies on `String::push`: appends one character.
#[verifier::external_body]
fn push_char(s: &mut String, c: char)
    ensures
        final(s)@ == old(s)@.push(c),
{
    s.push(c)
}

fn char_is_alpha(c: char) -> (r: bool)
    ensures
        r == is_alpha(c),
{
    ('a' <= c && c <= 'z') || ('A' <= c && c <= 'Z')
}

fn char_is_digit(c: char) -> (r: bool)
    ensures
        r == is_digit(c),
{
    '0' <= c && c <= '9'
}

fn char_is_space(c: char) -> (r: bool)
    ensures
        r == is_space(c),
{
    c == ' ' || c == '\t' || c == '\n' || c == '\r' || c == '\x0B' || c == '\x0C'
}

/// The token for a scanned word: a reserved keyword or an identifier.
fn reserved_keyword(word: String) -> (r: Token)
    ensures
        r@ == word_token(word@),
{
    let program = "PROGRAM".to_owned();
    let end_program = "END_PROGRAM".to_owned();
    if word == program {
        Token::Program
    } else if word == end_program {
        Token::EndProgram
    } else {
        Token::Id(word)
    }
}

/// The scanner: turns source text into tokens, one call at a time. A call
/// that fails consumes nothing.
pub struct Lexer {
    text: Vec<char>,
    pos: usize,
}

impl Lexer {
    /// The characters of the source text.
    pub closed spec fn text(&self) -> Seq<char> {
        self.text@
    }

    /// The position of the next character to scan.
    pub closed spec fn pos(&self) -> int {
        self.pos as int
    }

    #[verifier::type_invariant]
    pub(crate) closed spec fn pos_in_text(&self) -> bool {
        self.pos <= self.text.len()
    }

    /// What the invariant says, for the rest of the crate.
    pub(crate) proof fn lemma_pos_in_text(&self)
        requires
            self.pos_in_text(),
        ensures
            0 <= self.pos() <= self.text().len(),
    {
    }

    /// A scanner positioned at the start of `text`.
    pub fn new(text: String) -> (r: Lexer)
        ensures
            r.text() == text@,
            r.pos() == 0,
    {
        let mut chars: Vec<char> = Vec::new();
        let s = text.as_str();
        for c in it: s.chars()
            invariant
                chars@ == it.seq().take(it.index() as int),
        {
            chars.push(c);
        }
        proof {
            assert(chars@ =~= text@);
        }
        Lexer { text: chars, pos: 0 }
    }

    fn current_char(&self) -> (r: Option<char>)
        ensures
            r == (if 0 <= self.pos() < self.text().len() {
                Some(self.text()[self.pos()])
            } else {
                None
            }),
    {
        if self.pos < self.text.len() {
            Some(self.text[self.pos])
        } else {
            None
        }
    }

    fn advance(&mut self)
        requires
            old(self).pos() < old(self).text().len(),
        ensures
            final(self).text() == old(self).text(),
            final(self).pos() == old(self).pos() + 1,
    {
        let n = self.text.len();
        assert(self.pos < n);
        self.pos = self.pos + 1;
    }

    /// The character after the current one, if there is one.
    fn peek(&self) -> (r: Option<char>)
        ensures
            r == (if 0 <= self.pos() + 1 < self.text().len() {
                Some(self.text()[self.pos() + 1])
            } else {
                None
            }),
    {
        if self.pos < self.text.len() && self.pos + 1 < self.text.len() {
            Some(self.text[self.pos + 1])
        } else {
            None
        }
    }

    fn skip_whitespace(&mut self)
        ensures
            final(self).text() == old(self).text(),
            final(self).pos() == skip_ws(old(self).text(), old(self).pos()),
    {
        while self.pos < self.text.len() && char_is_space(self.text[self.pos])
            invariant
                self.text() == old(self).text(),
                skip_ws(self.text(), self.pos()) == skip_ws(old(self).text(), old(self).pos()),
            decreases self.text().len() - self.pos(),
        {
            self.advance();
        }
    }

    /// Scans the identifier or keyword that starts at the current position.
    fn id(&mut self) -> (r: Token)
        requires
            old(self).pos() < old(self).text().len(),
        ensures
            final(self).text() == old(self).text(),
            final(self).pos() == ident_end(old(self).text(), old(self).pos()),
            r@ == word_token(old(self).text().subrange(old(self).pos(), final(self).pos())),
    {
        let ghost start = self.pos();
        let mut result = String::new();
        proof {
            assert(result@ =~= self.text().subrange(start, start));
        }
        while self.pos < self.text.len() && (char_is_alpha(self.text[self.pos]) || char_is_digit(
            self.text[self.pos],
        ) || self.text[self.pos] == '_')
            invariant
                self.text() == old(self).text(),
                start == old(self).pos(),
                start <= self.pos() <= self.text().len(),
                ident_end(self.text(), self.pos()) == ident_end(self.text(), start),
                result@ == self.text().subrange(start, self.pos()),
            decreases self.text().len() - self.pos(),
        {
            push_char(&mut result, self.text[self.pos]);
            proof {
                assert(self.text().subrange(start, self.pos() + 1) =~= self.text().subrange(
                    start,
                    self.pos(),
                ).push(self.text()[self.pos()]));
            }
            self.advance();
        }
        reserved_keyword(result)
    }

    /// Scans the run of digits that starts at the current position.
    fn integer(&mut self) -> (r: Result<i32, LexError>)
        requires
            old(self).pos() < old(self).text().len(),
        ensures
            final(self).text() == old(self).text(),
            final(self).pos() == digits_end(old(self).text(), old(self).pos()),
            ({
                let v = digits_value(old(self).text(), old(self).pos(), final(self).pos());
                if v <= i32::MAX {
                    r == Ok::<i32, LexError>(v as i32)
                } else {
                    r == Err::<i32, LexError>(LexError::IntegerOverflow { pos: old(self).pos as usize })
                }
            }),
    {
        let start = self.pos;
        let mut value: i64 = 0;
        let mut overflow = false;
        while self.pos < self.text.len() && char_is_digit(self.text[self.pos])
            invariant
                self.text() == old(self).text(),
                start == old(self).pos(),
                start <= self.pos() <= self.text().len(),
                digits_end(self.text(), self.pos()) == digits_end(self.text(), start as int),
                !overflow ==> 0 <= value <= i32::MAX && value == digits_value(
                    self.text(),
                    start as int,
                    self.pos(),
                ),
                overflow ==> digits_value(self.text(), start as int, self.pos()) > i32::MAX,
            decreases self.text().len() - self.pos(),
        {
            let d = (self.text[self.pos] as u32 - '0' as u32) as i64;
            proof {
                let dv = digits_value(self.text(), start as int, self.pos());
                assert(digits_value(self.text(), start as int, self.pos() + 1) == dv * 10 + d);
                if overflow {
                    assert(dv * 10 + d > i32::MAX) by (nonlinear_arith)
                        requires
                            dv > i32::MAX,
                            d >= 0,
                    ;
                }
            }
            if !overflow {
                value = value * 10 + d;
                if value > i32::MAX as i64 {
                    overflow = true;
                }
            }
            self.advance();
        }
        if overflow {
            Err(LexError::IntegerOverflow { pos: start })
        } else {
            Ok(value as i32)
        }
    }

    /// One step of the scanner, as `scan` describes it.
    fn scan_token(&mut self) -> (r: Result<Option<Token>, LexError>)
        ensures
            final(self).text() == old(self).text(),
            match scan(old(self).text(), old(self).pos()) {
                Ok((t, p)) => r is Ok && opt_tok(r->Ok_0) == t && final(self).pos() == p,
                Err(e) => r == Err::<Option<Token>, LexError>(e) && final(self).pos() == old(
                    self,
                ).pos(),
            },
    {
        let start = self.pos;
        self.skip_whitespace();
        let c = match self.current_char() {
            None => return Ok(None),
            Some(c) => c,
        };
        if char_is_alpha(c) {
            Ok(Some(self.id()))
        } else if char_is_digit(c) {
            match self.integer() {
                Ok(v) => Ok(Some(Token::Integer(v))),
                Err(e) => {
                    self.pos = start;
                    Err(e)
                },
            }
        } else if c == ':' {
            match self.peek() {
                Some('=') => {
                    self.advance();
                    self.advance();
                    Ok(Some(Token::Assign))
                },
                _ => {
                    let e = LexError::IncompleteAssign { pos: self.pos };
                    self.pos = start;
                    Err(e)
                },
            }
        } else {
            let token = if c == ';' {
                Token::Semicolon
            } else if c == '+' {
                Token::Plus
            } else if c == '-' {
                Token::Minus
            } else if c == '*' {
                Token::Mul
            } else if c == '/' {
                Token::Div
            } else if c == '(' {
                Token::Lparen
            } else if c == ')' {
                Token::Rparen
            } else {
                let e = LexError::UnexpectedChar { ch: c, pos: self.pos };
                self.pos = start;
                return Err(e);
            };
            self.advance();
            Ok(Some(token))
        }
    }

    /// The next token and the position after it; `Ok(None)` at the end of
    /// the input. Whitespace before the token is skipped.
    pub fn get_next_token(&mut self) -> (r: Result<Option<Token>, LexError>)
        ensures
            final(self).text() == old(self).text(),
            0 <= old(self).pos() <= old(self).text().len(),
            0 <= final(self).pos() <= final(self).text().len(),
            step_outcome(old(self).text(), old(self).pos(), r, final(self).pos()),
    {
        proof {
            use_type_invariant(&*self);
        }
        let r = self.scan_token();
        proof {
            use_type_invariant(&*self);
        }
        r
    }
}

} // verus!
