use vstd::prelude::*;

use crate::fault::Fault;

verus! {

/// One token of the surface syntax.  Tokens are immutable, produced on
/// demand by the tokenizer, and owned by the parser.
#[derive(Debug, Clone, PartialEq)]
pub enum Token {
    Let,
    Ident(String),
    Number(i64),
    Plus,
    Minus,
    Star,
    Slash,
    Equal,
    EOF,
}

/// Mathematical abstraction of a token.
pub ghost enum TokenView {
    Let,
    Ident(Seq<char>),
    Number(i64),
    Plus,
    Minus,
    Star,
    Slash,
    Equal,
    Eof,
}

impl Token {
    /// The abstraction a `Token` stands for.
    pub open spec fn view(self) -> TokenView {
        match self {
            Token::Let => TokenView::Let,
            Token::Ident(s) => TokenView::Ident(s@),
            Token::Number(n) => TokenView::Number(n),
            Token::Plus => TokenView::Plus,
            Token::Minus => TokenView::Minus,
            Token::Star => TokenView::Star,
            Token::Slash => TokenView::Slash,
            Token::Equal => TokenView::Equal,
            Token::EOF => TokenView::Eof,
        }
    }
}

/// Whether a character has the Unicode White_Space property.  The exact
/// character set is `char::is_whitespace`'s; the tokenizer only relies on
/// the classification being a fixed function of the character.
pub uninterp spec fn ws_char(c: char) -> bool;

/// Whether a character is Unicode-alphabetic (`char::is_alphabetic`).
pub uninterp spec fn alpha_char(c: char) -> bool;

/// Whether a character is Unicode-alphanumeric (`char::is_alphanumeric`).
pub uninterp spec fn alnum_char(c: char) -> bool;

/// Relies on char::is_whitespace: whether the character has the Unicode
/// White_Space property; a fixed function of the character alone.
#[verifier::external_body]
fn is_whitespace_char(c: char) -> (r: bool)
    ensures
        r == ws_char(c),
{
    c.is_whitespace()
}

/// Relies on char::is_alphabetic: a fixed function of the character alone.
#[verifier::external_body]
fn is_alphabetic_char(c: char) -> (r: bool)
    ensures
        r == alpha_char(c),
{
    c.is_alphabetic()
}

/// Relies on char::is_alphanumeric: a fixed function of the character alone.
#[verifier::external_body]
fn is_alphanumeric_char(c: char) -> (r: bool)
    ensures
        r == alnum_char(c),
{
    c.is_alphanumeric()
}

/// Relies on str::chars: the characters of a string slice, in order.
#[verifier::external_body]
fn chars_vec(s: &str) -> (r: Vec<char>)
    ensures
        r@ == s@,
{
    s.chars().collect()
}

/// Relies on String's FromIterator over char: collecting characters yields
/// the string of exactly those characters, in order.
#[verifier::external_body]
fn string_from_chars(v: &Vec<char>) -> (r: String)
    ensures
        r@ == v@,
{
    v.iter().collect()
}

/// An ASCII decimal digit.
pub open spec fn is_digit_char(c: char) -> bool {
    48 <= c as u32 <= 57
}

/// The numeric value of an ASCII decimal digit.
pub open spec fn digit_val(c: char) -> int {
    c as u32 - 48
}

/// A character that may continue an identifier.
pub open spec fn ident_char(c: char) -> bool {
    alnum_char(c) || c == '_'
}

/// The first position at or after `i` holding a non-whitespace character
/// (or the end of the text).
pub open spec fn ws_end(s: Seq<char>, i: int) -> int
    decreases s.len() - i
        when 0 <= i <= s.len()
{
    if i >= s.len() {
        i
    } else if ws_char(s[i]) {
        ws_end(s, i + 1)
    } else {
        i
    }
}

/// The end of the maximal run of ASCII digits starting at `i`.
pub open spec fn digits_end(s: Seq<char>, i: int) -> int
    decreases s.len() - i
        when 0 <= i <= s.len()
{
    if i >= s.len() {
        i
    } else if is_digit_char(s[i]) {
        digits_end(s, i + 1)
    } else {
        i
    }
}

/// The end of the maximal run of identifier characters starting at `i`.
pub open spec fn ident_end(s: Seq<char>, i: int) -> int
    decreases s.len() - i
        when 0 <= i <= s.len()
{
    if i >= s.len() {
        i
    } else if ident_char(s[i]) {
        ident_end(s, i + 1)
    } else {
        i
    }
}

/// The integer a run of ASCII digits spells in base ten.
pub open spec fn digits_val(s: Seq<char>) -> int
    decreases s.len(),
{
    if s.len() == 0 {
        0
    } else {
        digits_val(s.drop_last()) * 10 + digit_val(s.last())
    }
}

/// The next token of `s` at position `i`, and the position after it:
/// whitespace is skipped; a digit starts a maximal number literal (faulting
/// if it exceeds the 64-bit signed range); an alphabetic character or an
/// underscore starts a maximal identifier, with the exact spelling `let`
/// reclassified as the keyword; the five operator characters map to their
/// tokens; at the end of the text the token is `Eof`; anything else is an
/// `UnexpectedCharacter` fault.
pub open spec fn next_tok(s: Seq<char>, i: int) -> Result<(TokenView, int), Fault>
    recommends
        0 <= i <= s.len(),
{
    let p = ws_end(s, i);
    if p >= s.len() {
        Ok((TokenView::Eof, p))
    } else {
        let c = s[p];
        if c == '+' {
            Ok((TokenView::Plus, p + 1))
        } else if c == '-' {
            Ok((TokenView::Minus, p + 1))
        } else if c == '*' {
            Ok((TokenView::Star, p + 1))
        } else if c == '/' {
            Ok((TokenView::Slash, p + 1))
        } else if c == '=' {
            Ok((TokenView::Equal, p + 1))
        } else if is_digit_char(c) {
            let e = digits_end(s, p);
            let v = digits_val(s.subrange(p, e));
            if v > i64::MAX {
                Err(Fault::NumberOverflow)
            } else {
                Ok((TokenView::Number(v as i64), e))
            }
        } else if alpha_char(c) || c == '_' {
            let e = ident_end(s, p + 1);
            let name = s.subrange(p, e);
            if name == "let"@ {
                Ok((TokenView::Let, e))
            } else {
                Ok((TokenView::Ident(name), e))
            }
        } else {
            Err(Fault::UnexpectedCharacter)
        }
    }
}

/// How a token stream ends: cleanly at the end of the text, or at the
/// first character the tokenizer must reject.
pub ghost enum LexFin {
    Done,
    Failed(Fault),
}

/// Every token of `s` from position `i` on (the `Eof` sentinel excluded),
/// together with how the stream ends.  Tokens produced before a tokenizing
/// fault are part of the stream: the tokenizer is lazy, so the parser may
/// consume them — or fail first — before the fault is ever reached.
pub open spec fn lex_all(s: Seq<char>, i: int) -> (Seq<TokenView>, LexFin)
    decreases s.len() - i
        when 0 <= i <= s.len()
        via lex_all_decreases
{
    match next_tok(s, i) {
        Err(f) => (Seq::empty(), LexFin::Failed(f)),
        Ok((t, p2)) => if t is Eof {
            (Seq::empty(), LexFin::Done)
        } else {
            let rest = lex_all(s, p2);
            (seq![t] + rest.0, rest.1)
        },
    }
}

#[via_fn]
proof fn lex_all_decreases(s: Seq<char>, i: int) {
    if 0 <= i <= s.len() {
        lemma_next_tok_bounds(s, i);
    }
}

/// Position bounds for `ws_end`.
pub proof fn lemma_ws_end_bounds(s: Seq<char>, i: int)
    requires
        0 <= i <= s.len(),
    ensures
        i <= ws_end(s, i) <= s.len(),
    decreases s.len() - i,
{
    if i < s.len() && ws_char(s[i]) {
        lemma_ws_end_bounds(s, i + 1);
    }
}

/// Position bounds for `digits_end`.
pub proof fn lemma_digits_end_bounds(s: Seq<char>, i: int)
    requires
        0 <= i <= s.len(),
    ensures
        i <= digits_end(s, i) <= s.len(),
    decreases s.len() - i,
{
    if i < s.len() && is_digit_char(s[i]) {
        lemma_digits_end_bounds(s, i + 1);
    }
}

/// Position bounds for `ident_end`.
pub proof fn lemma_ident_end_bounds(s: Seq<char>, i: int)
    requires
        0 <= i <= s.len(),
    ensures
        i <= ident_end(s, i) <= s.len(),
    decreases s.len() - i,
{
    if i < s.len() && ident_char(s[i]) {
        lemma_ident_end_bounds(s, i + 1);
    }
}

/// A successful `next_tok` never moves backwards or past the end, moves
/// strictly forward for every real token, and reaches the end exactly for
/// the `Eof` sentinel.
pub proof fn lemma_next_tok_bounds(s: Seq<char>, i: int)
    requires
        0 <= i <= s.len(),
    ensures
        match next_tok(s, i) {
            Ok((t, p2)) => i <= p2 <= s.len() && (t is Eof ==> p2 == s.len()) && (!(t is Eof)
                ==> p2 > i),
            Err(_) => true,
        },
{
    lemma_ws_end_bounds(s, i);
    let p = ws_end(s, i);
    if p < s.len() {
        let c = s[p];
        if is_digit_char(c) {
            lemma_digits_end_bounds(s, p + 1);
            assert(digits_end(s, p) == digits_end(s, p + 1));
        } else if alpha_char(c) || c == '_' {
            lemma_ident_end_bounds(s, p + 1);
        }
    }
}

/// One step of the stream model: the head of `lex_all` is exactly what
/// `next_tok` produces, and the tail is the stream from the new position.
pub proof fn lemma_lex_all_step(s: Seq<char>, i: int)
    requires
        0 <= i <= s.len(),
    ensures
        match next_tok(s, i) {
            Err(f) => lex_all(s, i) == (Seq::<TokenView>::empty(), LexFin::Failed(f)),
            Ok((t, p2)) => if t is Eof {
                lex_all(s, i) == (Seq::<TokenView>::empty(), LexFin::Done)
            } else {
                lex_all(s, i).0.len() > 0 && lex_all(s, i).0[0] == t && lex_all(s, i).0.skip(1)
                    == lex_all(s, p2).0 && lex_all(s, i).1 == lex_all(s, p2).1
            },
        },
{
    lemma_next_tok_bounds(s, i);
    match next_tok(s, i) {
        Err(_) => {
        },
        Ok((t, p2)) => {
            if !(t is Eof) {
                assert((seq![t] + lex_all(s, p2).0).skip(1) =~= lex_all(s, p2).0);
            }
        },
    }
}

/// The tokenizer: a cursor over the characters of the source text, which
/// only ever advances.
pub struct Lexer {
    input: Vec<char>,
    pos: usize,
}

impl Lexer {
    /// The source text.
    pub closed spec fn src(self) -> Seq<char> {
        self.input@
    }

    /// The cursor: how many characters have been consumed.
    pub closed spec fn cursor(self) -> int {
        self.pos as int
    }

    /// The cursor never runs past the end of the text.
    pub open spec fn wf(self) -> bool {
        0 <= self.cursor() <= self.src().len()
    }

    /// The remaining token stream: every token still to come, and how the
    /// stream ends.
    pub open spec fn model(self) -> (Seq<TokenView>, LexFin) {
        lex_all(self.src(), self.cursor())
    }

    /// A tokenizer at the start of the given source text.
    pub fn new(input: &str) -> (l: Self)
        ensures
            l.wf(),
            l.src() == input@,
            l.cursor() == 0,
    {
        Self { input: chars_vec(input), pos: 0 }
    }

    /// The character under the cursor, if any.
    fn current(&self) -> (r: Option<char>)
        requires
            self.wf(),
        ensures
            r == if self.cursor() < self.src().len() {
                Some(self.src()[self.cursor()])
            } else {
                None::<char>
            },
    {
        if self.pos < self.input.len() {
            Some(self.input[self.pos])
        } else {
            None
        }
    }

    /// Step over the character under the cursor.
    fn advance(&mut self)
        requires
            old(self).wf(),
            old(self).cursor() < old(self).src().len(),
        ensures
            final(self).wf(),
            final(self).src() == old(self).src(),
            final(self).cursor() == old(self).cursor() + 1,
    {
        let len = self.input.len();
        self.pos = self.pos + 1;
    }

    /// Skip to the next non-whitespace character.
    fn skip_whitespace(&mut self)
        requires
            old(self).wf(),
        ensures
            final(self).wf(),
            final(self).src() == old(self).src(),
            final(self).cursor() == ws_end(old(self).src(), old(self).cursor()),
    {
        loop
            invariant
                self.wf(),
                self.src() == old(self).src(),
                ws_end(self.src(), old(self).cursor()) == ws_end(self.src(), self.cursor()),
            ensures
                self.wf(),
                self.src() == old(self).src(),
                self.cursor() == ws_end(self.src(), old(self).cursor()),
            decreases self.src().len() - self.cursor(),
        {
            match self.current() {
                Some(c) => {
                    if is_whitespace_char(c) {
                        self.advance();
                    } else {
                        break ;
                    }
                },
                None => {
                    break ;
                },
            }
        }
    }

    /// Read the maximal digit run under the cursor as a 64-bit integer,
    /// faulting with `NumberOverflow` if it does not fit.
    fn read_number(&mut self) -> (r: Result<i64, Fault>)
        requires
            old(self).wf(),
        ensures
            final(self).wf(),
            final(self).src() == old(self).src(),
            final(self).cursor() == digits_end(old(self).src(), old(self).cursor()),
            ({
                let v = digits_val(
                    old(self).src().subrange(
                        old(self).cursor(),
                        digits_end(old(self).src(), old(self).cursor()),
                    ),
                );
                if v > i64::MAX {
                    r == Err::<i64, Fault>(Fault::NumberOverflow)
                } else {
                    r == Ok::<i64, Fault>(v as i64)
                }
            }),
    {
        let ghost start = self.cursor();
        let mut n: u64 = 0;
        let mut over: bool = false;
        loop
            invariant
                self.wf(),
                self.src() == old(self).src(),
                start == old(self).cursor(),
                0 <= start <= self.cursor(),
                digits_end(self.src(), start) == digits_end(self.src(), self.cursor()),
                over ==> digits_val(self.src().subrange(start, self.cursor())) > i64::MAX,
                !over ==> n == digits_val(self.src().subrange(start, self.cursor())) && n
                    <= i64::MAX,
            ensures
                self.wf(),
                self.src() == old(self).src(),
                self.cursor() == digits_end(self.src(), start),
                over ==> digits_val(self.src().subrange(start, self.cursor())) > i64::MAX,
                !over ==> n == digits_val(self.src().subrange(start, self.cursor())) && n
                    <= i64::MAX,
            decreases self.src().len() - self.cursor(),
        {
            match self.current() {
                Some(c) => {
                    let cu = c as u32;
                    if 48 <= cu && cu <= 57 {
                        let d: u64 = (cu - 48) as u64;
                        let ghost run = self.src().subrange(start, self.cursor());
                        let ghost run2 = self.src().subrange(start, self.cursor() + 1);
                        proof {
                            assert(run2.drop_last() =~= run);
                            assert(run2.last() == self.src()[self.cursor()]);
                            vstd::arithmetic::div_mod::lemma_fundamental_div_mod(
                                (i64::MAX - d) as int,
                                10,
                            );
                        }
                        if !over {
                            if n <= (9223372036854775807u64 - d) / 10 {
                                n = n * 10 + d;
                            } else {
                                over = true;
                            }
                        }
                        self.advance();
                    } else {
                        break ;
                    }
                },
                None => {
                    break ;
                },
            }
        }
        if over {
            Err(Fault::NumberOverflow)
        } else {
            Ok(n as i64)
        }
    }

    /// Read an identifier: the character under the cursor (which opened
    /// it) and then the maximal run of identifier characters after it.
    fn read_ident(&mut self) -> (r: String)
        requires
            old(self).wf(),
            old(self).cursor() < old(self).src().len(),
        ensures
            final(self).wf(),
            final(self).src() == old(self).src(),
            final(self).cursor() == ident_end(old(self).src(), old(self).cursor() + 1),
            r@ == old(self).src().subrange(
                old(self).cursor(),
                ident_end(old(self).src(), old(self).cursor() + 1),
            ),
    {
        let ghost start = self.cursor();
        let mut buf: Vec<char> = Vec::new();
        let c0 = self.input[self.pos];
        buf.push(c0);
        self.advance();
        proof {
            assert(buf@ =~= self.src().subrange(start, start + 1));
        }
        loop
            invariant
                self.wf(),
                self.src() == old(self).src(),
                start == old(self).cursor(),
                start + 1 <= self.cursor(),
                ident_end(self.src(), start + 1) == ident_end(self.src(), self.cursor()),
                buf@ == self.src().subrange(start, self.cursor()),
            ensures
                self.wf(),
                self.src() == old(self).src(),
                self.cursor() == ident_end(self.src(), start + 1),
                buf@ == self.src().subrange(start, self.cursor()),
            decreases self.src().len() - self.cursor(),
        {
            match self.current() {
                Some(c) => {
                    if is_alphanumeric_char(c) || c == '_' {
                        let ghost run2 = self.src().subrange(start, self.cursor() + 1);
                        proof {
                            assert(run2 =~= self.src().subrange(start, self.cursor()).push(
                                self.src()[self.cursor()],
                            ));
                        }
                        buf.push(c);
                        self.advance();
                    } else {
                        break ;
                    }
                },
                None => {
                    break ;
                },
            }
        }
        string_from_chars(&buf)
    }

    /// Produce the next token, exactly as `next_tok` says; once the end of
    /// the text is reached, every further call returns `EOF` again.
    pub fn next_token(&mut self) -> (r: Result<Token, Fault>)
        requires
            old(self).wf(),
        ensures
            final(self).wf(),
            final(self).src() == old(self).src(),
            match r {
                Ok(t) => next_tok(old(self).src(), old(self).cursor()) == Ok::<
                    (TokenView, int),
                    Fault,
                >((t.view(), final(self).cursor())),
                Err(f) => next_tok(old(self).src(), old(self).cursor()) == Err::<
                    (TokenView, int),
                    Fault,
                >(f),
            },
    {
        self.skip_whitespace();
        match self.current() {
            None => Ok(Token::EOF),
            Some(c) => {
                if c == '+' {
                    self.advance();
                    Ok(Token::Plus)
                } else if c == '-' {
                    self.advance();
                    Ok(Token::Minus)
                } else if c == '*' {
                    self.advance();
                    Ok(Token::Star)
                } else if c == '/' {
                    self.advance();
                    Ok(Token::Slash)
                } else if c == '=' {
                    self.advance();
                    Ok(Token::Equal)
                } else {
                    let cu = c as u32;
                    if 48 <= cu && cu <= 57 {
                        match self.read_number() {
                            Ok(n) => Ok(Token::Number(n)),
                            Err(f) => Err(f),
                        }
                    } else if is_alphabetic_char(c) || c == '_' {
                        let name = self.read_ident();
                        let kw: String = "let".to_owned();
                        if name == kw {
                            Ok(Token::Let)
                        } else {
                            Ok(Token::Ident(name))
                        }
                    } else {
                        Err(Fault::UnexpectedCharacter)
                    }
                }
            },
        }
    }
}

} // verus!
