use vstd::prelude::*;
use vstd::arithmetic::div_mod::{lemma_div_is_ordered_by_denominator, lemma_div_nonincreasing};
use vstd::math::abs;
use vstd::wrapping::i64_specs;

use crate::ast::{BinOp, Expr, ExprView, Stmt, StmtView, stmts_view};
use crate::bindings::{bindings_map, lemma_bindings_map_absent, lemma_bindings_map_found};
use crate::fault::Fault;
use crate::types::Type;

verus! {

/// A runtime value: an integer or an opaque clock tick, tagged to mirror
/// `Type`.
#[derive(Clone, Copy, Debug, PartialEq, Eq, Structural)]
pub enum Value {
    Int(i64),
    Time(i64),
}

/// The kind of a runtime value, as the type checker describes it.
pub open spec fn value_kind(v: Value) -> Type {
    match v {
        Value::Int(_) => Type::Int,
        Value::Time(_) => Type::Time,
    }
}

/// The logical clock after one observation: it advances by one tick, and at
/// the very top of the 64-bit range it stays put rather than wrap around.
pub open spec fn tick(t: i64) -> i64 {
    if t == i64::MAX {
        t
    } else {
        (t + 1) as i64
    }
}

/// Truncating integer division (round toward zero) on mathematical integers.
pub open spec fn trunc_div(a: int, b: int) -> int
    recommends
        b != 0,
{
    let q = abs(a) as int / abs(b) as int;
    if (a < 0) != (b < 0) {
        -q
    } else {
        q
    }
}

/// 64-bit quotient: truncating division, clamped only in the one case
/// `i64::MIN / -1`, whose exact quotient does not fit in 64 bits.
pub open spec fn div_value(a: i64, b: i64) -> i64
    recommends
        b != 0,
{
    if a == i64::MIN && b == -1 {
        i64::MIN
    } else {
        trunc_div(a as int, b as int) as i64
    }
}

/// One arithmetic step on two integer operands, wrapping on 64-bit
/// overflow; dividing by zero is the one arithmetic fault.
pub open spec fn apply_op(op: BinOp, a: i64, b: i64) -> Result<Value, Fault> {
    match op {
        BinOp::Add => Ok(Value::Int(i64_specs::wrapping_add(a, b))),
        BinOp::Sub => Ok(Value::Int(i64_specs::wrapping_sub(a, b))),
        BinOp::Mul => Ok(Value::Int(i64_specs::wrapping_mul(a, b))),
        BinOp::Div => if b == 0 {
            Err(Fault::DivisionByZero)
        } else {
            Ok(Value::Int(div_value(a, b)))
        },
    }
}

/// Evaluating one expression under a store and a clock: the value (or the
/// fault) and the clock afterwards.  A literal is itself; the clock
/// primitive observes the current tick and advances the clock; a variable
/// is looked up; a binary node evaluates its left operand strictly before
/// its right and then applies the operator, faulting with `TypeMismatch`
/// whenever a clock value reaches any operator.
pub open spec fn eval_expr_spec(env: Map<Seq<char>, Value>, t: i64, e: ExprView) -> (Result<
    Value,
    Fault,
>, i64)
    decreases e,
{
    match e {
        ExprView::Number(n) => (Ok(Value::Int(n)), t),
        ExprView::Now => (Ok(Value::Time(t)), tick(t)),
        ExprView::Var(n) => if env.contains_key(n) {
            (Ok(env[n]), t)
        } else {
            (Err(Fault::UndefinedVariable), t)
        },
        ExprView::Binary(op, l, r) => {
            let lr = eval_expr_spec(env, t, *l);
            match lr.0 {
                Err(f) => (Err(f), lr.1),
                Ok(lv) => {
                    let rr = eval_expr_spec(env, lr.1, *r);
                    match rr.0 {
                        Err(f) => (Err(f), rr.1),
                        Ok(rv) => match (lv, rv) {
                            (Value::Int(a), Value::Int(b)) => (apply_op(op, a, b), rr.1),
                            _ => (Err(Fault::TypeMismatch), rr.1),
                        },
                    }
                },
            }
        },
    }
}

/// Running statements in order: the program result (the value of the last
/// bare expression, if any), the variable store, and the clock afterwards.
/// A fault stops the run at once; bindings made before it persist, and so
/// does any clock progress the failing expression already made.
pub open spec fn exec_stmts_spec(
    env: Map<Seq<char>, Value>,
    t: i64,
    stmts: Seq<StmtView>,
    last: Option<Value>,
) -> (Result<Option<Value>, Fault>, Map<Seq<char>, Value>, i64)
    decreases stmts.len(),
{
    if stmts.len() == 0 {
        (Ok(last), env, t)
    } else {
        match stmts[0] {
            StmtView::Let(n, e) => {
                let er = eval_expr_spec(env, t, e);
                match er.0 {
                    Err(f) => (Err(f), env, er.1),
                    Ok(v) => exec_stmts_spec(env.insert(n, v), er.1, stmts.skip(1), last),
                }
            },
            StmtView::Expr(e) => {
                let er = eval_expr_spec(env, t, e);
                match er.0 {
                    Err(f) => (Err(f), env, er.1),
                    Ok(v) => exec_stmts_spec(env, er.1, stmts.skip(1), Some(v)),
                }
            },
        }
    }
}

/// The variable store of one run: a flat namespace from name to value.
/// Rebinding overwrites, and the store itself places no restriction on the
/// new value's kind.
pub struct Env {
    vars: Vec<(String, Value)>,
}

impl View for Env {
    type V = Map<Seq<char>, Value>;

    closed spec fn view(&self) -> Map<Seq<char>, Value> {
        bindings_map(self.vars@)
    }
}

impl Env {
    /// An empty store.
    pub fn new() -> (e: Self)
        ensures
            e@ == Map::<Seq<char>, Value>::empty(),
    {
        Self { vars: Vec::new() }
    }

    /// The value bound to `name`, if any.
    pub fn get(&self, name: &str) -> (r: Option<Value>)
        ensures
            match r {
                Some(v) => self@.contains_key(name@) && self@[name@] == v,
                None => !self@.contains_key(name@),
            },
    {
        let key: String = name.to_owned();
        let mut i = self.vars.len();
        while i > 0
            invariant
                i <= self.vars.len(),
                key@ == name@,
                forall|k: int| i <= k < self.vars@.len() ==> self.vars@[k].0@ != name@,
            decreases i,
        {
            i = i - 1;
            if self.vars[i].0 == key {
                let v = self.vars[i].1;
                proof {
                    lemma_bindings_map_found(self.vars@, name@, i as int);
                }
                return Some(v);
            }
        }
        proof {
            lemma_bindings_map_absent(self.vars@, name@);
        }
        None
    }

    /// Bind (or rebind) `name` to `value`.
    pub fn set(&mut self, name: String, value: Value)
        ensures
            final(self)@ == old(self)@.insert(name@, value),
    {
        self.vars.push((name, value));
        proof {
            assert(self.vars@.drop_last() =~= old(self).vars@);
        }
    }
}

/// The tree-walking evaluator: one mutable store and one monotonic logical
/// clock, initialized to zero.
pub struct Interpreter {
    env: Env,
    time: i64,
}

impl View for Interpreter {
    type V = (Map<Seq<char>, Value>, i64);

    closed spec fn view(&self) -> (Map<Seq<char>, Value>, i64) {
        (self.env@, self.time)
    }
}

impl Interpreter {
    /// A fresh interpreter: empty store, clock at zero.
    pub fn new() -> (it: Self)
        ensures
            it@.0 == Map::<Seq<char>, Value>::empty(),
            it@.1 == 0,
    {
        Self { env: Env::new(), time: 0 }
    }

    /// The 64-bit quotient `div_value`, computed through unsigned
    /// magnitudes so that every case is checked.
    fn div_values(a: i64, b: i64) -> (q: i64)
        requires
            b != 0,
        ensures
            q == div_value(a, b),
    {
        if a == i64::MIN && b == -1 {
            return i64::MIN;
        }
        let ua: u64 = if a >= 0 {
            a as u64
        } else {
            ((-(a + 1)) as u64) + 1
        };
        let ub: u64 = if b >= 0 {
            b as u64
        } else {
            ((-(b + 1)) as u64) + 1
        };
        proof {
            assert(ua == abs(a as int));
            assert(ub == abs(b as int));
            assert(ub >= 1);
        }
        let uq = ua / ub;
        proof {
            lemma_div_nonincreasing(ua as int, ub as int);
            if a == i64::MIN {
                if ub >= 2 {
                    lemma_div_is_ordered_by_denominator(ua as int, 2, ub as int);
                }
            }
        }
        let neg = (a < 0) != (b < 0);
        if neg {
            if uq == 9223372036854775808u64 {
                i64::MIN
            } else {
                -(uq as i64)
            }
        } else {
            uq as i64
        }
    }

    /// Evaluate one expression, exactly as `eval_expr_spec` says: the store
    /// is untouched, the clock ends where the model ends, and the result is
    /// the model's.
    fn eval_expr(&mut self, expr: &Expr) -> (r: Result<Value, Fault>)
        ensures
            final(self)@.0 == old(self)@.0,
            final(self)@.1 == eval_expr_spec(old(self)@.0, old(self)@.1, expr.view()).1,
            match r {
                Ok(v) => eval_expr_spec(old(self)@.0, old(self)@.1, expr.view()).0 == Ok::<
                    Value,
                    Fault,
                >(v),
                Err(f) => eval_expr_spec(old(self)@.0, old(self)@.1, expr.view()).0 == Err::<
                    Value,
                    Fault,
                >(f),
            },
        decreases expr,
    {
        match expr {
            Expr::Number(n) => Ok(Value::Int(*n)),
            Expr::Now => {
                let t = self.time;
                if t != i64::MAX {
                    self.time = t + 1;
                }
                Ok(Value::Time(t))
            },
            Expr::Var(name) => match self.env.get(name.as_str()) {
                Some(v) => Ok(v),
                None => Err(Fault::UndefinedVariable),
            },
            Expr::Binary { left, op, right } => {
                let lv = match self.eval_expr(left) {
                    Ok(v) => v,
                    Err(f) => {
                        return Err(f);
                    },
                };
                let rv = match self.eval_expr(right) {
                    Ok(v) => v,
                    Err(f) => {
                        return Err(f);
                    },
                };
                match (lv, rv) {
                    (Value::Int(a), Value::Int(b)) => match op {
                        BinOp::Add => Ok(Value::Int(a.wrapping_add(b))),
                        BinOp::Sub => Ok(Value::Int(a.wrapping_sub(b))),
                        BinOp::Mul => Ok(Value::Int(a.wrapping_mul(b))),
                        BinOp::Div => {
                            if b == 0 {
                                Err(Fault::DivisionByZero)
                            } else {
                                Ok(Value::Int(Self::div_values(a, b)))
                            }
                        },
                    },
                    _ => Err(Fault::TypeMismatch),
                }
            },
        }
    }

    /// Run a program: statements strictly in order, exactly as
    /// `exec_stmts_spec` says.  A binding stores its value; a bare
    /// expression's value becomes the candidate result, of which only the
    /// last survives; the result is absent when no bare statement ran.
    pub fn execute(&mut self, stmts: &[Stmt]) -> (r: Result<Option<Value>, Fault>)
        ensures
            final(self)@.0 == exec_stmts_spec(old(self)@.0, old(self)@.1, stmts_view(stmts@), None).1,
            final(self)@.1 == exec_stmts_spec(old(self)@.0, old(self)@.1, stmts_view(stmts@), None).2,
            match r {
                Ok(ov) => exec_stmts_spec(old(self)@.0, old(self)@.1, stmts_view(stmts@), None).0
                    == Ok::<Option<Value>, Fault>(ov),
                Err(f) => exec_stmts_spec(old(self)@.0, old(self)@.1, stmts_view(stmts@), None).0
                    == Err::<Option<Value>, Fault>(f),
            },
    {
        let ghost env0 = self@.0;
        let ghost t0 = self@.1;
        let ghost views = stmts_view(stmts@);
        proof {
            assert(views.skip(0) =~= views);
        }
        let mut last: Option<Value> = None;
        let mut i: usize = 0;
        while i < stmts.len()
            invariant
                i <= stmts.len(),
                env0 == old(self)@.0,
                t0 == old(self)@.1,
                views == stmts_view(stmts@),
                exec_stmts_spec(env0, t0, views, None) == exec_stmts_spec(
                    self@.0,
                    self@.1,
                    views.skip(i as int),
                    last,
                ),
            decreases stmts.len() - i,
        {
            proof {
                assert(views.skip(i as int)[0] == views[i as int]);
                assert(views.skip(i as int).skip(1) =~= views.skip(i as int + 1));
            }
            match &stmts[i] {
                Stmt::Let { name, value } => {
                    proof {
                        assert(stmts@[i as int].view() == StmtView::Let(name@, value.view()));
                    }
                    let v = match self.eval_expr(value) {
                        Ok(v) => v,
                        Err(f) => {
                            return Err(f);
                        },
                    };
                    self.env.set(name.clone(), v);
                },
                Stmt::Expr(e) => {
                    proof {
                        assert(stmts@[i as int].view() == StmtView::Expr(e.view()));
                    }
                    let v = match self.eval_expr(e) {
                        Ok(v) => v,
                        Err(f) => {
                            return Err(f);
                        },
                    };
                    last = Some(v);
                },
            }
            i = i + 1;
        }
        proof {
            assert(views.skip(i as int) =~= Seq::<StmtView>::empty());
        }
        Ok(last)
    }
}

} // verus!
