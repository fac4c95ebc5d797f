use vstd::prelude::*;

use crate::ast::{BinOp, Expr, ExprView, Stmt, StmtView, stmts_view};
use crate::fault::Fault;
use crate::lexer::{LexFin, Lexer, Token, TokenView};

verus! {

/// The token under a stream position: the head of the remaining tokens, the
/// everlasting `Eof` sentinel after a clean end, or the tokenizing fault the
/// next pull would hit.
pub open spec fn cur(toks: Seq<TokenView>, fin: LexFin) -> Result<TokenView, Fault> {
    if toks.len() > 0 {
        Ok(toks[0])
    } else {
        match fin {
            LexFin::Done => Ok(TokenView::Eof),
            LexFin::Failed(f) => Err(f),
        }
    }
}

/// The rest of a stream once its head token is consumed.
pub open spec fn tail_toks(toks: Seq<TokenView>) -> Seq<TokenView> {
    if toks.len() == 0 {
        toks
    } else {
        toks.skip(1)
    }
}

/// A primary expression: a number literal, or an identifier — `now` becomes
/// the clock primitive, everything else a variable reference.  The token
/// after it is pulled at once (single-token lookahead), so a tokenizing
/// fault right behind a primary surfaces here.
pub open spec fn parse_primary_spec(toks: Seq<TokenView>, fin: LexFin) -> Result<
    (ExprView, Seq<TokenView>),
    Fault,
> {
    match cur(toks, fin) {
        Err(f) => Err(f),
        Ok(t) => match t {
            TokenView::Number(n) => {
                let rem = toks.skip(1);
                match cur(rem, fin) {
                    Err(f) => Err(f),
                    Ok(_) => Ok((ExprView::Number(n), rem)),
                }
            },
            TokenView::Ident(name) => {
                let rem = toks.skip(1);
                match cur(rem, fin) {
                    Err(f) => Err(f),
                    Ok(_) => Ok(
                        (
                            if name == "now"@ {
                                ExprView::Now
                            } else {
                                ExprView::Var(name)
                            },
                            rem,
                        ),
                    ),
                }
            },
            TokenView::Eof => Err(Fault::UnexpectedEndOfInput),
            _ => Err(Fault::UnexpectedToken),
        },
    }
}

/// A successful primary consumes exactly one token.
pub proof fn lemma_parse_primary_len(toks: Seq<TokenView>, fin: LexFin)
    ensures
        match parse_primary_spec(toks, fin) {
            Ok((e, rem)) => toks.len() >= 1 && rem == toks.skip(1),
            Err(_) => true,
        },
{
}

/// The tail of a product: as long as `*` or `/` follows, fold the next
/// primary into the accumulated expression, left-associatively.
pub open spec fn parse_mul_tail_spec(toks: Seq<TokenView>, fin: LexFin, acc: ExprView) -> Result<
    (ExprView, Seq<TokenView>),
    Fault,
>
    decreases toks.len()
        via parse_mul_tail_spec_decreases
{
    match cur(toks, fin) {
        Err(f) => Err(f),
        Ok(t) => match t {
            TokenView::Star => match parse_primary_spec(toks.skip(1), fin) {
                Err(f) => Err(f),
                Ok((e, rem2)) => parse_mul_tail_spec(
                    rem2,
                    fin,
                    ExprView::Binary(BinOp::Mul, Box::new(acc), Box::new(e)),
                ),
            },
            TokenView::Slash => match parse_primary_spec(toks.skip(1), fin) {
                Err(f) => Err(f),
                Ok((e, rem2)) => parse_mul_tail_spec(
                    rem2,
                    fin,
                    ExprView::Binary(BinOp::Div, Box::new(acc), Box::new(e)),
                ),
            },
            _ => Ok((acc, toks)),
        },
    }
}

#[via_fn]
proof fn parse_mul_tail_spec_decreases(toks: Seq<TokenView>, fin: LexFin, acc: ExprView) {
    if toks.len() > 0 {
        lemma_parse_primary_len(toks.skip(1), fin);
    }
}

/// A product: a primary, then its tail.
pub open spec fn parse_mul_spec(toks: Seq<TokenView>, fin: LexFin) -> Result<
    (ExprView, Seq<TokenView>),
    Fault,
> {
    match parse_primary_spec(toks, fin) {
        Err(f) => Err(f),
        Ok((e, rem)) => parse_mul_tail_spec(rem, fin, e),
    }
}

/// A product tail never grows the remaining stream.
pub proof fn lemma_parse_mul_tail_len(toks: Seq<TokenView>, fin: LexFin, acc: ExprView)
    ensures
        match parse_mul_tail_spec(toks, fin, acc) {
            Ok((e, rem)) => rem.len() <= toks.len(),
            Err(_) => true,
        },
    decreases toks.len(),
{
    if toks.len() > 0 {
        match toks[0] {
            TokenView::Star => {
                lemma_parse_primary_len(toks.skip(1), fin);
                match parse_primary_spec(toks.skip(1), fin) {
                    Ok((e, rem2)) => {
                        lemma_parse_mul_tail_len(
                            rem2,
                            fin,
                            ExprView::Binary(BinOp::Mul, Box::new(acc), Box::new(e)),
                        );
                    },
                    Err(_) => {
                    },
                }
            },
            TokenView::Slash => {
                lemma_parse_primary_len(toks.skip(1), fin);
                match parse_primary_spec(toks.skip(1), fin) {
                    Ok((e, rem2)) => {
                        lemma_parse_mul_tail_len(
                            rem2,
                            fin,
                            ExprView::Binary(BinOp::Div, Box::new(acc), Box::new(e)),
                        );
                    },
                    Err(_) => {
                    },
                }
            },
            _ => {
            },
        }
    }
}

/// A successful product consumes at least one token.
pub proof fn lemma_parse_mul_len(toks: Seq<TokenView>, fin: LexFin)
    ensures
        match parse_mul_spec(toks, fin) {
            Ok((e, rem)) => rem.len() < toks.len(),
            Err(_) => true,
        },
{
    lemma_parse_primary_len(toks, fin);
    match parse_primary_spec(toks, fin) {
        Ok((e, rem)) => {
            lemma_parse_mul_tail_len(rem, fin, e);
        },
        Err(_) => {
        },
    }
}

/// The tail of a sum: as long as `+` or `-` follows, fold the next product
/// into the accumulated expression, left-associatively.
pub open spec fn parse_add_tail_spec(toks: Seq<TokenView>, fin: LexFin, acc: ExprView) -> Result<
    (ExprView, Seq<TokenView>),
    Fault,
>
    decreases toks.len()
        via parse_add_tail_spec_decreases
{
    match cur(toks, fin) {
        Err(f) => Err(f),
        Ok(t) => match t {
            TokenView::Plus => match parse_mul_spec(toks.skip(1), fin) {
                Err(f) => Err(f),
                Ok((e, rem2)) => parse_add_tail_spec(
                    rem2,
                    fin,
                    ExprView::Binary(BinOp::Add, Box::new(acc), Box::new(e)),
                ),
            },
            TokenView::Minus => match parse_mul_spec(toks.skip(1), fin) {
                Err(f) => Err(f),
                Ok((e, rem2)) => parse_add_tail_spec(
                    rem2,
                    fin,
                    ExprView::Binary(BinOp::Sub, Box::new(acc), Box::new(e)),
                ),
            },
            _ => Ok((acc, toks)),
        },
    }
}

#[via_fn]
proof fn parse_add_tail_spec_decreases(toks: Seq<TokenView>, fin: LexFin, acc: ExprView) {
    if toks.len() > 0 {
        lemma_parse_mul_len(toks.skip(1), fin);
    }
}

/// A sum: a product, then its tail.  This is the whole expression grammar —
/// `*` and `/` bind tighter than `+` and `-`, and there is no parenthesis
/// production.
pub open spec fn parse_expr_spec(toks: Seq<TokenView>, fin: LexFin) -> Result<
    (ExprView, Seq<TokenView>),
    Fault,
> {
    match parse_mul_spec(toks, fin) {
        Err(f) => Err(f),
        Ok((e, rem)) => parse_add_tail_spec(rem, fin, e),
    }
}

/// A sum tail never grows the remaining stream.
pub proof fn lemma_parse_add_tail_len(toks: Seq<TokenView>, fin: LexFin, acc: ExprView)
    ensures
        match parse_add_tail_spec(toks, fin, acc) {
            Ok((e, rem)) => rem.len() <= toks.len(),
            Err(_) => true,
        },
    decreases toks.len(),
{
    if toks.len() > 0 {
        match toks[0] {
            TokenView::Plus => {
                lemma_parse_mul_len(toks.skip(1), fin);
                match parse_mul_spec(toks.skip(1), fin) {
                    Ok((e, rem2)) => {
                        lemma_parse_add_tail_len(
                            rem2,
                            fin,
                            ExprView::Binary(BinOp::Add, Box::new(acc), Box::new(e)),
                        );
                    },
                    Err(_) => {
                    },
                }
            },
            TokenView::Minus => {
                lemma_parse_mul_len(toks.skip(1), fin);
                match parse_mul_spec(toks.skip(1), fin) {
                    Ok((e, rem2)) => {
                        lemma_parse_add_tail_len(
                            rem2,
                            fin,
                            ExprView::Binary(BinOp::Sub, Box::new(acc), Box::new(e)),
                        );
                    },
                    Err(_) => {
                    },
                }
            },
            _ => {
            },
        }
    }
}

/// A successful expression consumes at least one token.
pub proof fn lemma_parse_expr_len(toks: Seq<TokenView>, fin: LexFin)
    ensures
        match parse_expr_spec(toks, fin) {
            Ok((e, rem)) => rem.len() < toks.len(),
            Err(_) => true,
        },
{
    lemma_parse_mul_len(toks, fin);
    match parse_mul_spec(toks, fin) {
        Ok((e, rem)) => {
            lemma_parse_add_tail_len(rem, fin, e);
        },
        Err(_) => {
        },
    }
}

/// One statement: `let name = expr`, or a bare expression.  A missing
/// identifier or `=` after `let` is a fault — `UnexpectedEndOfInput` when
/// the stream ended, `UnexpectedToken` otherwise.
pub open spec fn parse_stmt_spec(toks: Seq<TokenView>, fin: LexFin) -> Result<
    (StmtView, Seq<TokenView>),
    Fault,
> {
    match cur(toks, fin) {
        Err(f) => Err(f),
        Ok(TokenView::Let) => {
            let rem1 = toks.skip(1);
            match cur(rem1, fin) {
                Err(f) => Err(f),
                Ok(TokenView::Ident(name)) => {
                    let rem2 = rem1.skip(1);
                    match cur(rem2, fin) {
                        Err(f) => Err(f),
                        Ok(TokenView::Equal) => {
                            let rem3 = rem2.skip(1);
                            match parse_expr_spec(rem3, fin) {
                                Err(f) => Err(f),
                                Ok((e, rem4)) => Ok((StmtView::Let(name, e), rem4)),
                            }
                        },
                        Ok(TokenView::Eof) => Err(Fault::UnexpectedEndOfInput),
                        Ok(_) => Err(Fault::UnexpectedToken),
                    }
                },
                Ok(TokenView::Eof) => Err(Fault::UnexpectedEndOfInput),
                Ok(_) => Err(Fault::UnexpectedToken),
            }
        },
        Ok(_) => match parse_expr_spec(toks, fin) {
            Err(f) => Err(f),
            Ok((e, rem)) => Ok((StmtView::Expr(e), rem)),
        },
    }
}

/// A successful statement consumes at least one token.
pub proof fn lemma_parse_stmt_len(toks: Seq<TokenView>, fin: LexFin)
    ensures
        match parse_stmt_spec(toks, fin) {
            Ok((st, rem)) => rem.len() < toks.len(),
            Err(_) => true,
        },
{
    if toks.len() > 0 && toks[0] is Let {
        if toks.skip(1).len() > 0 && toks.skip(1)[0] is Ident {
            lemma_parse_expr_len(toks.skip(1).skip(1).skip(1), fin);
        }
    } else {
        lemma_parse_expr_len(toks, fin);
    }
}

/// A whole program: statements until the stream ends cleanly.
pub open spec fn parse_program_spec(toks: Seq<TokenView>, fin: LexFin) -> Result<
    Seq<StmtView>,
    Fault,
>
    decreases toks.len()
        via parse_program_spec_decreases
{
    match cur(toks, fin) {
        Err(f) => Err(f),
        Ok(TokenView::Eof) => Ok(Seq::empty()),
        Ok(_) => match parse_stmt_spec(toks, fin) {
            Err(f) => Err(f),
            Ok((st, rem)) => match parse_program_spec(rem, fin) {
                Err(f) => Err(f),
                Ok(rest) => Ok(seq![st] + rest),
            },
        },
    }
}

#[via_fn]
proof fn parse_program_spec_decreases(toks: Seq<TokenView>, fin: LexFin) {
    lemma_parse_stmt_len(toks, fin);
}

/// The recursive-descent parser: it exclusively owns the tokenizer and
/// holds one token of lookahead.
pub struct Parser {
    lexer: Lexer,
    current: Token,
}

impl Parser {
    /// The lookahead token is `EOF` only once the tokenizer is exhausted.
    pub closed spec fn wf(self) -> bool {
        self.lexer.wf() && (self.current is EOF ==> self.lexer.model() == (
            Seq::<TokenView>::empty(),
            LexFin::Done,
        ))
    }

    /// The stream still to be consumed: the lookahead token and everything
    /// the tokenizer has not yet produced.
    pub closed spec fn stream(self) -> (Seq<TokenView>, LexFin) {
        if self.current is EOF {
            (Seq::<TokenView>::empty(), LexFin::Done)
        } else {
            (seq![self.current.view()] + self.lexer.model().0, self.lexer.model().1)
        }
    }

    /// A parser over the given tokenizer, with the first token pulled; a
    /// tokenizing fault in that very first pull surfaces here.
    pub fn new(lexer: Lexer) -> (r: Result<Self, Fault>)
        requires
            lexer.wf(),
        ensures
            match r {
                Ok(p) => p.wf() && p.stream() == lexer.model(),
                Err(f) => lexer.model() == (Seq::<TokenView>::empty(), LexFin::Failed(f)),
            },
    {
        let ghost src = lexer.src();
        let ghost pos0 = lexer.cursor();
        let mut lx = lexer;
        proof {
            crate::lexer::lemma_lex_all_step(src, pos0);
            crate::lexer::lemma_next_tok_bounds(src, pos0);
        }
        match lx.next_token() {
            Ok(t) => {
                let p = Parser { lexer: lx, current: t };
                Ok(p)
            },
            Err(f) => Err(f),
        }
    }

    /// Replace the lookahead with the next token from the tokenizer.  After
    /// the success, the head of the old stream has been discarded and the
    /// new head is in hand; the error is the tokenizing fault the pull hit.
    fn advance(&mut self) -> (r: Result<(), Fault>)
        requires
            old(self).wf(),
        ensures
            final(self).wf(),
            match r {
                Ok(()) => cur(tail_toks(old(self).stream().0), old(self).stream().1) is Ok
                    && final(self).stream() == (
                    tail_toks(old(self).stream().0),
                    old(self).stream().1,
                ),
                Err(f) => cur(tail_toks(old(self).stream().0), old(self).stream().1) == Err::<
                    TokenView,
                    Fault,
                >(f),
            },
    {
        let ghost src = self.lexer.src();
        let ghost pos0 = self.lexer.cursor();
        proof {
            crate::lexer::lemma_lex_all_step(src, pos0);
            crate::lexer::lemma_next_tok_bounds(src, pos0);
        }
        match self.lexer.next_token() {
            Ok(t) => {
                self.current = t;
                proof {
                    crate::lexer::lemma_lex_all_step(
                        self.lexer.src(),
                        self.lexer.cursor(),
                    );
                }
                Ok(())
            },
            Err(f) => Err(f),
        }
    }

    /// Parse a primary expression, exactly as `parse_primary_spec` says.
    fn parse_primary(&mut self) -> (r: Result<Expr, Fault>)
        requires
            old(self).wf(),
        ensures
            final(self).wf(),
            match r {
                Ok(e) => parse_primary_spec(old(self).stream().0, old(self).stream().1) == Ok::<
                    (ExprView, Seq<TokenView>),
                    Fault,
                >((e.view(), final(self).stream().0)) && final(self).stream().1 == old(
                    self,
                ).stream().1,
                Err(f) => parse_primary_spec(old(self).stream().0, old(self).stream().1) == Err::<
                    (ExprView, Seq<TokenView>),
                    Fault,
                >(f),
            },
    {
        match &self.current {
            Token::Number(n) => {
                let v = *n;
                match self.advance() {
                    Ok(()) => Ok(Expr::Number(v)),
                    Err(f) => Err(f),
                }
            },
            Token::Ident(s) => {
                let name = s.clone();
                match self.advance() {
                    Err(f) => Err(f),
                    Ok(()) => {
                        let kw: String = "now".to_owned();
                        if name == kw {
                            Ok(Expr::Now)
                        } else {
                            Ok(Expr::Var(name))
                        }
                    },
                }
            },
            Token::EOF => Err(Fault::UnexpectedEndOfInput),
            _ => Err(Fault::UnexpectedToken),
        }
    }

    /// Parse a product, exactly as `parse_mul_spec` says.
    fn parse_mul(&mut self) -> (r: Result<Expr, Fault>)
        requires
            old(self).wf(),
        ensures
            final(self).wf(),
            match r {
                Ok(e) => parse_mul_spec(old(self).stream().0, old(self).stream().1) == Ok::<
                    (ExprView, Seq<TokenView>),
                    Fault,
                >((e.view(), final(self).stream().0)) && final(self).stream().1 == old(
                    self,
                ).stream().1,
                Err(f) => parse_mul_spec(old(self).stream().0, old(self).stream().1) == Err::<
                    (ExprView, Seq<TokenView>),
                    Fault,
                >(f),
            },
    {
        let ghost toks0 = old(self).stream().0;
        let ghost fin0 = old(self).stream().1;
        let mut expr = match self.parse_primary() {
            Ok(e) => e,
            Err(f) => {
                return Err(f);
            },
        };
        loop
            invariant
                self.wf(),
                self.stream().1 == fin0,
                toks0 == old(self).stream().0,
                fin0 == old(self).stream().1,
                parse_mul_spec(toks0, fin0) == parse_mul_tail_spec(
                    self.stream().0,
                    fin0,
                    expr.view(),
                ),
            ensures
                self.wf(),
                self.stream().1 == fin0,
                parse_mul_spec(toks0, fin0) == Ok::<(ExprView, Seq<TokenView>), Fault>(
                    (expr.view(), self.stream().0),
                ),
            decreases self.stream().0.len(),
        {
            let is_star = match &self.current {
                Token::Star => true,
                _ => false,
            };
            let is_slash = match &self.current {
                Token::Slash => true,
                _ => false,
            };
            if is_star || is_slash {
                let ghost pre = self.stream();
                match self.advance() {
                    Err(f) => {
                        return Err(f);
                    },
                    Ok(()) => {
                    },
                }
                let ghost mid = self.stream();
                let rhs = match self.parse_primary() {
                    Ok(e) => e,
                    Err(f) => {
                        return Err(f);
                    },
                };
                proof {
                    lemma_parse_primary_len(mid.0, fin0);
                    assert(pre.0.len() > 0);
                    assert(mid.0 == pre.0.skip(1));
                }
                let op = if is_star {
                    BinOp::Mul
                } else {
                    BinOp::Div
                };
                expr = Expr::Binary { left: Box::new(expr), op, right: Box::new(rhs) };
            } else {
                break ;
            }
        }
        Ok(expr)
    }

    /// Parse a sum, exactly as `parse_expr_spec` says.
    fn parse_add(&mut self) -> (r: Result<Expr, Fault>)
        requires
            old(self).wf(),
        ensures
            final(self).wf(),
            match r {
                Ok(e) => parse_expr_spec(old(self).stream().0, old(self).stream().1) == Ok::<
                    (ExprView, Seq<TokenView>),
                    Fault,
                >((e.view(), final(self).stream().0)) && final(self).stream().1 == old(
                    self,
                ).stream().1,
                Err(f) => parse_expr_spec(old(self).stream().0, old(self).stream().1) == Err::<
                    (ExprView, Seq<TokenView>),
                    Fault,
                >(f),
            },
    {
        let ghost toks0 = old(self).stream().0;
        let ghost fin0 = old(self).stream().1;
        let mut expr = match self.parse_mul() {
            Ok(e) => e,
            Err(f) => {
                return Err(f);
            },
        };
        loop
            invariant
                self.wf(),
                self.stream().1 == fin0,
                toks0 == old(self).stream().0,
                fin0 == old(self).stream().1,
                parse_expr_spec(toks0, fin0) == parse_add_tail_spec(
                    self.stream().0,
                    fin0,
                    expr.view(),
                ),
            ensures
                self.wf(),
                self.stream().1 == fin0,
                parse_expr_spec(toks0, fin0) == Ok::<(ExprView, Seq<TokenView>), Fault>(
                    (expr.view(), self.stream().0),
                ),
            decreases self.stream().0.len(),
        {
            let is_plus = match &self.current {
                Token::Plus => true,
                _ => false,
            };
            let is_minus = match &self.current {
                Token::Minus => true,
                _ => false,
            };
            if is_plus || is_minus {
                let ghost pre = self.stream();
                match self.advance() {
                    Err(f) => {
                        return Err(f);
                    },
                    Ok(()) => {
                    },
                }
                let ghost mid = self.stream();
                let rhs = match self.parse_mul() {
                    Ok(e) => e,
                    Err(f) => {
                        return Err(f);
                    },
                };
                proof {
                    lemma_parse_mul_len(mid.0, fin0);
                    assert(pre.0.len() > 0);
                    assert(mid.0 == pre.0.skip(1));
                }
                let op = if is_plus {
                    BinOp::Add
                } else {
                    BinOp::Sub
                };
                expr = Expr::Binary { left: Box::new(expr), op, right: Box::new(rhs) };
            } else {
                break ;
            }
        }
        Ok(expr)
    }

    /// Parse a whole expression: the sum production is the lowest
    /// precedence level, so an expression is exactly a sum.
    fn parse_expr(&mut self) -> (r: Result<Expr, Fault>)
        requires
            old(self).wf(),
        ensures
            final(self).wf(),
            match r {
                Ok(e) => parse_expr_spec(old(self).stream().0, old(self).stream().1) == Ok::<
                    (ExprView, Seq<TokenView>),
                    Fault,
                >((e.view(), final(self).stream().0)) && final(self).stream().1 == old(
                    self,
                ).stream().1,
                Err(f) => parse_expr_spec(old(self).stream().0, old(self).stream().1) == Err::<
                    (ExprView, Seq<TokenView>),
                    Fault,
                >(f),
            },
    {
        self.parse_add()
    }

    /// Parse a `let` statement; the lookahead must be the keyword.
    fn parse_let(&mut self) -> (r: Result<Stmt, Fault>)
        requires
            old(self).wf(),
            old(self).stream().0.len() > 0,
            old(self).stream().0[0] is Let,
        ensures
            final(self).wf(),
            match r {
                Ok(st) => parse_stmt_spec(old(self).stream().0, old(self).stream().1) == Ok::<
                    (StmtView, Seq<TokenView>),
                    Fault,
                >((st.view(), final(self).stream().0)) && final(self).stream().1 == old(
                    self,
                ).stream().1,
                Err(f) => parse_stmt_spec(old(self).stream().0, old(self).stream().1) == Err::<
                    (StmtView, Seq<TokenView>),
                    Fault,
                >(f),
            },
    {
        match self.advance() {
            Err(f) => {
                return Err(f);
            },
            Ok(()) => {
            },
        }
        let name = match &self.current {
            Token::Ident(s) => s.clone(),
            Token::EOF => {
                return Err(Fault::UnexpectedEndOfInput);
            },
            _ => {
                return Err(Fault::UnexpectedToken);
            },
        };
        match self.advance() {
            Err(f) => {
                return Err(f);
            },
            Ok(()) => {
            },
        }
        match &self.current {
            Token::Equal => {
            },
            Token::EOF => {
                return Err(Fault::UnexpectedEndOfInput);
            },
            _ => {
                return Err(Fault::UnexpectedToken);
            },
        }
        match self.advance() {
            Err(f) => {
                return Err(f);
            },
            Ok(()) => {
            },
        }
        let value = match self.parse_expr() {
            Ok(e) => e,
            Err(f) => {
                return Err(f);
            },
        };
        Ok(Stmt::Let { name, value })
    }

    /// Parse one statement, exactly as `parse_stmt_spec` says.
    fn parse_stmt(&mut self) -> (r: Result<Stmt, Fault>)
        requires
            old(self).wf(),
        ensures
            final(self).wf(),
            match r {
                Ok(st) => parse_stmt_spec(old(self).stream().0, old(self).stream().1) == Ok::<
                    (StmtView, Seq<TokenView>),
                    Fault,
                >((st.view(), final(self).stream().0)) && final(self).stream().1 == old(
                    self,
                ).stream().1,
                Err(f) => parse_stmt_spec(old(self).stream().0, old(self).stream().1) == Err::<
                    (StmtView, Seq<TokenView>),
                    Fault,
                >(f),
            },
    {
        let is_let = match &self.current {
            Token::Let => true,
            _ => false,
        };
        if is_let {
            self.parse_let()
        } else {
            match self.parse_expr() {
                Ok(e) => Ok(Stmt::Expr(e)),
                Err(f) => Err(f),
            }
        }
    }

    /// Parse the whole program: statements until the stream ends cleanly,
    /// exactly as `parse_program_spec` says.  Every fault — tokenizing or
    /// parsing — aborts the whole parse with no recovery.
    pub fn parse(&mut self) -> (r: Result<Vec<Stmt>, Fault>)
        requires
            old(self).wf(),
        ensures
            final(self).wf(),
            match r {
                Ok(stmts) => parse_program_spec(old(self).stream().0, old(self).stream().1)
                    == Ok::<Seq<StmtView>, Fault>(stmts_view(stmts@)),
                Err(f) => parse_program_spec(old(self).stream().0, old(self).stream().1) == Err::<
                    Seq<StmtView>,
                    Fault,
                >(f),
            },
    {
        let ghost toks0 = old(self).stream().0;
        let ghost fin0 = old(self).stream().1;
        let mut stmts: Vec<Stmt> = Vec::new();
        loop
            invariant
                self.wf(),
                toks0 == old(self).stream().0,
                fin0 == old(self).stream().1,
                self.stream().1 == fin0,
                match parse_program_spec(self.stream().0, self.stream().1) {
                    Ok(rest) => parse_program_spec(toks0, fin0) == Ok::<Seq<StmtView>, Fault>(
                        stmts_view(stmts@) + rest,
                    ),
                    Err(f) => parse_program_spec(toks0, fin0) == Err::<Seq<StmtView>, Fault>(f),
                },
            ensures
                self.wf(),
                parse_program_spec(toks0, fin0) == Ok::<Seq<StmtView>, Fault>(
                    stmts_view(stmts@),
                ),
            decreases self.stream().0.len(),
        {
            proof {
                assert(stmts_view(stmts@) + Seq::<StmtView>::empty() =~= stmts_view(stmts@));
            }
            let is_eof = match &self.current {
                Token::EOF => true,
                _ => false,
            };
            if is_eof {
                break ;
            }
            let ghost pre = self.stream();
            let st = match self.parse_stmt() {
                Ok(s) => s,
                Err(f) => {
                    return Err(f);
                },
            };
            let ghost svo = stmts_view(stmts@);
            proof {
                lemma_parse_stmt_len(pre.0, fin0);
            }
            stmts.push(st);
            proof {
                assert(stmts_view(stmts@) =~= svo.push(st.view()));
                match parse_program_spec(self.stream().0, self.stream().1) {
                    Ok(rest) => {
                        assert(svo + (seq![st.view()] + rest) =~= svo.push(st.view()) + rest);
                    },
                    Err(_) => {
                    },
                }
            }
        }
        Ok(stmts)
    }
}

} // verus!
