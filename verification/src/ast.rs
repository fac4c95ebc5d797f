use vstd::prelude::*;

verus! {

/// The four binary operators, listed from the surface syntax `+ - * /`.
#[derive(Clone, Copy, Debug, PartialEq, Eq, Structural)]
pub enum BinOp {
    Add,
    Sub,
    Mul,
    Div,
}

/// An expression node.  Sub-expressions are exclusively owned by their
/// parent, so the tree is acyclic and is traversed read-only by both the
/// type checker and the evaluator.
#[derive(Debug, PartialEq)]
pub enum Expr {
    Number(i64),
    Var(String),
    Now,
    Binary { left: Box<Expr>, op: BinOp, right: Box<Expr> },
}

/// A statement: either a (rebindable) binding or a bare expression.
#[derive(Debug, PartialEq)]
pub enum Stmt {
    Let { name: String, value: Expr },
    Expr(Expr),
}

/// Mathematical abstraction of an expression: variable names become
/// character sequences, ownership disappears.
pub ghost enum ExprView {
    Number(i64),
    Var(Seq<char>),
    Now,
    Binary(BinOp, Box<ExprView>, Box<ExprView>),
}

/// Mathematical abstraction of a statement.
pub ghost enum StmtView {
    Let(Seq<char>, ExprView),
    Expr(ExprView),
}

impl Expr {
    /// The abstraction an `Expr` stands for.
    pub open spec fn view(self) -> ExprView
        decreases self,
    {
        match self {
            Expr::Number(n) => ExprView::Number(n),
            Expr::Var(name) => ExprView::Var(name@),
            Expr::Now => ExprView::Now,
            Expr::Binary { left, op, right } => ExprView::Binary(
                op,
                Box::new((*left).view()),
                Box::new((*right).view()),
            ),
        }
    }
}

impl Stmt {
    /// The abstraction a `Stmt` stands for.
    pub open spec fn view(self) -> StmtView {
        match self {
            Stmt::Let { name, value } => StmtView::Let(name@, value.view()),
            Stmt::Expr(e) => StmtView::Expr(e.view()),
        }
    }
}

/// The abstraction of a whole program: its statements, in order.
pub open spec fn stmts_view(stmts: Seq<Stmt>) -> Seq<StmtView> {
    stmts.map_values(|s: Stmt| s.view())
}

} // verus!
