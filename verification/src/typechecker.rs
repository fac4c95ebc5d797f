use vstd::prelude::*;
use vstd::string::StringExecFns;

use crate::ast::{Expr, Stmt, StmtView, ExprView, stmts_view};
use crate::bindings::{bindings_map, lemma_bindings_map_found, lemma_bindings_map_absent};
use crate::diagnostic::Diagnostic;
use crate::types::Type;

verus! {

/// The abstract outcome of checking one expression: the variable that had no
/// binding, or an operand-kind mismatch.
pub ghost enum CheckErr {
    Unproven(Seq<char>),
    Mismatch,
}

/// Checking one expression under a typing environment: literals are `Int`,
/// the clock primitive is `Time`, a variable has its recorded type or is
/// unproven, and a binary node is `Int` exactly when both operands are.
pub open spec fn check_expr_spec(tenv: Map<Seq<char>, Type>, e: ExprView) -> Result<
    Type,
    CheckErr,
>
    decreases e,
{
    match e {
        ExprView::Number(_) => Ok(Type::Int),
        ExprView::Now => Ok(Type::Time),
        ExprView::Var(n) => if tenv.contains_key(n) {
            Ok(tenv[n])
        } else {
            Err(CheckErr::Unproven(n))
        },
        ExprView::Binary(_, l, r) => match check_expr_spec(tenv, *l) {
            Err(c) => Err(c),
            Ok(lt) => match check_expr_spec(tenv, *r) {
                Err(c) => Err(c),
                Ok(rt) => if lt == Type::Int && rt == Type::Int {
                    Ok(Type::Int)
                } else {
                    Err(CheckErr::Mismatch)
                },
            },
        },
    }
}

/// One forward pass over the statements: a binding records its value's type
/// (overwriting any earlier binding of the name), a bare expression is
/// checked and its type discarded.  The pass stops at the first failure;
/// the returned map is the environment at that point.
pub open spec fn check_stmts_spec(
    tenv: Map<Seq<char>, Type>,
    stmts: Seq<StmtView>,
) -> (Map<Seq<char>, Type>, Option<CheckErr>)
    decreases stmts.len(),
{
    if stmts.len() == 0 {
        (tenv, None)
    } else {
        match stmts[0] {
            StmtView::Let(n, e) => match check_expr_spec(tenv, e) {
                Err(c) => (tenv, Some(c)),
                Ok(t) => check_stmts_spec(tenv.insert(n, t), stmts.skip(1)),
            },
            StmtView::Expr(e) => match check_expr_spec(tenv, e) {
                Err(c) => (tenv, Some(c)),
                Ok(_) => check_stmts_spec(tenv, stmts.skip(1)),
            },
        }
    }
}

/// What diagnostic each abstract checking failure must surface as.
pub open spec fn diag_matches(c: CheckErr, d: Diagnostic) -> bool {
    match c {
        CheckErr::Unproven(n) => d.title@ == "Unproven Variable"@ && d.message@ == "The variable '"@
            + n + "' is used here, but no proof exists that it has been defined."@ && match d.help {
            Some(h) => h@ == "Define the variable before using it, or pass it as an argument."@,
            None => false,
        },
        CheckErr::Mismatch => d.title@ == "Type Mismatch"@ && d.message@
            == "Both sides of this operation must have the same numeric type."@ && d.help is None,
    }
}

/// The typing environment of one checking pass: a flat namespace from
/// variable name to type, rebinding simply overwrites.
pub struct TypeEnv {
    vars: Vec<(String, Type)>,
}

impl View for TypeEnv {
    type V = Map<Seq<char>, Type>;

    closed spec fn view(&self) -> Map<Seq<char>, Type> {
        bindings_map(self.vars@)
    }
}

impl TypeEnv {
    /// An empty typing environment.
    pub fn new() -> (te: Self)
        ensures
            te@ == Map::<Seq<char>, Type>::empty(),
    {
        Self { vars: Vec::new() }
    }

    /// The type recorded for `name`, if any.
    pub fn get(&self, name: &str) -> (r: Option<Type>)
        ensures
            match r {
                Some(t) => self@.contains_key(name@) && self@[name@] == t,
                None => !self@.contains_key(name@),
            },
    {
        let key: String = name.to_owned();
        let mut i = self.vars.len();
        while i > 0
            invariant
                i <= self.vars.len(),
                key@ == name@,
                forall|k: int| i <= k < self.vars@.len() ==> self.vars@[k].0@ != name@,
            decreases i,
        {
            i = i - 1;
            if self.vars[i].0 == key {
                let t = self.vars[i].1;
                proof {
                    lemma_bindings_map_found(self.vars@, name@, i as int);
                }
                return Some(t);
            }
        }
        proof {
            lemma_bindings_map_absent(self.vars@, name@);
        }
        None
    }

    /// Record (or overwrite) the type of `name`.
    pub fn set(&mut self, name: String, ty: Type)
        ensures
            final(self)@ == old(self)@.insert(name@, ty),
    {
        self.vars.push((name, ty));
        proof {
            assert(self.vars@.drop_last() =~= old(self).vars@);
        }
    }
}

/// The static type checker: one mutable typing environment, one forward pass.
pub struct TypeChecker {
    env: TypeEnv,
}

impl View for TypeChecker {
    type V = Map<Seq<char>, Type>;

    closed spec fn view(&self) -> Map<Seq<char>, Type> {
        self.env@
    }
}

impl TypeChecker {
    /// A checker with an empty typing environment.
    pub fn new() -> (tc: Self)
        ensures
            tc@ == Map::<Seq<char>, Type>::empty(),
    {
        Self { env: TypeEnv::new() }
    }

    /// Check one expression against the current typing environment.  The
    /// result is exactly what `check_expr_spec` says, with abstract failures
    /// rendered as the two diagnostics of the language.
    fn check_expr(&self, expr: &Expr) -> (r: Result<Type, Diagnostic>)
        ensures
            match r {
                Ok(t) => check_expr_spec(self@, expr.view()) == Ok::<Type, CheckErr>(t),
                Err(d) => check_expr_spec(self@, expr.view()) is Err && diag_matches(
                    check_expr_spec(self@, expr.view())->Err_0,
                    d,
                ),
            },
        decreases expr,
    {
        match expr {
            Expr::Number(_) => Ok(Type::Int),
            Expr::Now => Ok(Type::Time),
            Expr::Var(name) => match self.env.get(name.as_str()) {
                Some(t) => Ok(t),
                None => {
                    let mut message = "The variable '".to_owned();
                    message.append(name.as_str());
                    message.append(
                        "' is used here, but no proof exists that it has been defined.",
                    );
                    Err(
                        Diagnostic::new("Unproven Variable", message.as_str()).with_help(
                            "Define the variable before using it, or pass it as an argument.",
                        ),
                    )
                },
            },
            Expr::Binary { left, right, .. } => {
                let lt = match self.check_expr(left) {
                    Ok(t) => t,
                    Err(d) => {
                        return Err(d);
                    },
                };
                let rt = match self.check_expr(right) {
                    Ok(t) => t,
                    Err(d) => {
                        return Err(d);
                    },
                };
                if lt == Type::Int && rt == Type::Int {
                    Ok(Type::Int)
                } else {
                    Err(
                        Diagnostic::new(
                            "Type Mismatch",
                            "Both sides of this operation must have the same numeric type.",
                        ),
                    )
                }
            },
        }
    }

    /// Check a whole program.  On success the typing environment holds the
    /// final recorded types; the first failing statement stops the pass and
    /// its diagnostic is returned.
    pub fn check(&mut self, stmts: &[Stmt]) -> (r: Result<(), Diagnostic>)
        ensures
            final(self)@ == check_stmts_spec(old(self)@, stmts_view(stmts@)).0,
            match r {
                Ok(()) => check_stmts_spec(old(self)@, stmts_view(stmts@)).1 is None,
                Err(d) => {
                    let oc = check_stmts_spec(old(self)@, stmts_view(stmts@)).1;
                    oc is Some && diag_matches(oc->0, d)
                },
            },
    {
        let ghost env0 = self@;
        let ghost views = stmts_view(stmts@);
        proof {
            assert(views.skip(0) =~= views);
        }
        let mut i: usize = 0;
        while i < stmts.len()
            invariant
                i <= stmts.len(),
                env0 == old(self)@,
                views == stmts_view(stmts@),
                check_stmts_spec(env0, views) == check_stmts_spec(self@, views.skip(i as int)),
            decreases stmts.len() - i,
        {
            proof {
                assert(views.skip(i as int)[0] == views[i as int]);
                assert(views.skip(i as int).skip(1) =~= views.skip(i as int + 1));
            }
            match &stmts[i] {
                Stmt::Let { name, value } => {
                    proof {
                        assert(stmts@[i as int].view() == StmtView::Let(name@, value.view()));
                    }
                    let t = match self.check_expr(value) {
                        Ok(t) => t,
                        Err(d) => {
                            return Err(d);
                        },
                    };
                    self.env.set(name.clone(), t);
                },
                Stmt::Expr(e) => {
                    proof {
                        assert(stmts@[i as int].view() == StmtView::Expr(e.view()));
                    }
                    match self.check_expr(e) {
                        Ok(_) => (),
                        Err(d) => {
                            return Err(d);
                        },
                    }
                },
            }
            i = i + 1;
        }
        proof {
            assert(views.skip(i as int) =~= Seq::<StmtView>::empty());
        }
        Ok(())
    }
}

} // verus!
