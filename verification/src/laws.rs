use vstd::prelude::*;

use crate::ast::{BinOp, ExprView, StmtView};
use crate::fault::Fault;
use crate::interpreter::{Value, eval_expr_spec, exec_stmts_spec, tick, value_kind};
use crate::lexer::{LexFin, TokenView, lex_all};
use crate::parser::{parse_add_tail_spec, parse_expr_spec, parse_mul_spec, parse_mul_tail_spec, parse_primary_spec, parse_program_spec, parse_stmt_spec};
use crate::typechecker::{CheckErr, check_expr_spec, check_stmts_spec};
use crate::types::Type;

verus! {

/// A variable store agrees with a typing environment when they bind exactly
/// the same names and every stored value has its recorded type.
pub open spec fn env_matches(tenv: Map<Seq<char>, Type>, env: Map<Seq<char>, Value>) -> bool {
    tenv.dom() == env.dom() && forall|n: Seq<char>|
        #[trigger] tenv.contains_key(n) ==> value_kind(env[n]) == tenv[n]
}

/// Soundness of the checker, one expression at a time: under a store that
/// agrees with the typing environment, evaluating an expression the checker
/// accepted either yields a value of exactly the checked type, or faults
/// with `DivisionByZero` — never with `UndefinedVariable` or `TypeMismatch`.
pub proof fn lemma_check_expr_sound(
    tenv: Map<Seq<char>, Type>,
    env: Map<Seq<char>, Value>,
    t: i64,
    e: ExprView,
)
    requires
        env_matches(tenv, env),
        check_expr_spec(tenv, e) is Ok,
    ensures
        match eval_expr_spec(env, t, e).0 {
            Ok(v) => value_kind(v) == check_expr_spec(tenv, e)->Ok_0,
            Err(f) => f == Fault::DivisionByZero,
        },
    decreases e,
{
    match e {
        ExprView::Number(_) => {
        },
        ExprView::Now => {
        },
        ExprView::Var(n) => {
            assert(env.contains_key(n));
        },
        ExprView::Binary(op, l, r) => {
            lemma_check_expr_sound(tenv, env, t, *l);
            let lr = eval_expr_spec(env, t, *l);
            if lr.0 is Ok {
                lemma_check_expr_sound(tenv, env, lr.1, *r);
            }
        },
    }
}

/// Soundness of the checker over a statement sequence: if the checking pass
/// accepts the statements, running them under an agreeing store either
/// succeeds — leaving a store that agrees with the final typing environment
/// — or faults with `DivisionByZero`.
pub proof fn lemma_check_stmts_sound(
    tenv: Map<Seq<char>, Type>,
    env: Map<Seq<char>, Value>,
    t: i64,
    stmts: Seq<StmtView>,
    last: Option<Value>,
)
    requires
        env_matches(tenv, env),
        check_stmts_spec(tenv, stmts).1 is None,
    ensures
        exec_stmts_spec(env, t, stmts, last).0 is Err ==> exec_stmts_spec(
            env,
            t,
            stmts,
            last,
        ).0->Err_0 == Fault::DivisionByZero,
        exec_stmts_spec(env, t, stmts, last).0 is Ok ==> env_matches(
            check_stmts_spec(tenv, stmts).0,
            exec_stmts_spec(env, t, stmts, last).1,
        ),
    decreases stmts.len(),
{
    if stmts.len() == 0 {
    } else {
        match stmts[0] {
            StmtView::Let(n, e) => {
                lemma_check_expr_sound(tenv, env, t, e);
                let ty = check_expr_spec(tenv, e)->Ok_0;
                let er = eval_expr_spec(env, t, e);
                match er.0 {
                    Err(_) => {
                    },
                    Ok(v) => {
                        assert(tenv.insert(n, ty).dom() =~= env.insert(n, v).dom());
                        assert(env_matches(tenv.insert(n, ty), env.insert(n, v)));
                        lemma_check_stmts_sound(
                            tenv.insert(n, ty),
                            env.insert(n, v),
                            er.1,
                            stmts.skip(1),
                            last,
                        );
                    },
                }
            },
            StmtView::Expr(e) => {
                lemma_check_expr_sound(tenv, env, t, e);
                let er = eval_expr_spec(env, t, e);
                match er.0 {
                    Err(_) => {
                    },
                    Ok(v) => {
                        lemma_check_stmts_sound(tenv, env, er.1, stmts.skip(1), Some(v));
                    },
                }
            },
        }
    }
}

/// Soundness of the pipeline: a program that passes type checking from an
/// empty environment can never fault at evaluation time with
/// `UndefinedVariable` or `TypeMismatch`; division by zero is the only
/// fault evaluation may still raise.
pub proof fn lemma_soundness(stmts: Seq<StmtView>)
    requires
        check_stmts_spec(Map::empty(), stmts).1 is None,
    ensures
        exec_stmts_spec(Map::empty(), 0, stmts, None).0 is Ok || exec_stmts_spec(
            Map::empty(),
            0,
            stmts,
            None,
        ).0 == Err::<Option<Value>, Fault>(Fault::DivisionByZero),
{
    assert(Map::<Seq<char>, Type>::empty().dom() =~= Map::<Seq<char>, Value>::empty().dom());
    lemma_check_stmts_sound(Map::empty(), Map::empty(), 0, stmts, None);
}

/// Determinism of the tokenizer: the token stream is a function of the
/// source text alone, so tokenizing identical texts yields identical
/// streams.
pub proof fn lemma_tokenize_deterministic(s1: Seq<char>, s2: Seq<char>)
    requires
        s1 == s2,
    ensures
        lex_all(s1, 0) == lex_all(s2, 0),
{
}

/// Rebinding across kinds: binding a name to an integer and then rebinding
/// it to a clock value passes the type checker (the recorded type is simply
/// overwritten) and runs to completion (the stored value is simply
/// overwritten) — there is no cross-rebinding conflict check.
pub proof fn lemma_rebinding_across_kinds(n: Seq<char>)
    ensures
        ({
            let prog = seq![
                StmtView::Let(n, ExprView::Number(1)),
                StmtView::Let(n, ExprView::Now),
            ];
            check_stmts_spec(Map::empty(), prog).1 is None && exec_stmts_spec(
                Map::empty(),
                0,
                prog,
                None,
            ).0 == Ok::<Option<Value>, Fault>(None)
        }),
{
    reveal_with_fuel(check_stmts_spec, 4);
    reveal_with_fuel(exec_stmts_spec, 4);
    reveal_with_fuel(check_expr_spec, 2);
    reveal_with_fuel(eval_expr_spec, 2);
    let prog = seq![StmtView::Let(n, ExprView::Number(1)), StmtView::Let(n, ExprView::Now)];
    assert(prog.skip(1) =~= seq![StmtView::Let(n, ExprView::Now)]);
    assert(prog.skip(1).skip(1) =~= Seq::<StmtView>::empty());
}

/// Operator precedence: the token stream of `1 + 2 * 3` parses with the
/// multiplication bound tighter, and the program evaluates to the
/// integer 7.
#[verifier::rlimit(60)]
pub proof fn lemma_operator_precedence()
    ensures
        ({
            let toks = seq![
                TokenView::Number(1),
                TokenView::Plus,
                TokenView::Number(2),
                TokenView::Star,
                TokenView::Number(3),
            ];
            let ast = StmtView::Expr(
                ExprView::Binary(
                    BinOp::Add,
                    Box::new(ExprView::Number(1)),
                    Box::new(
                        ExprView::Binary(
                            BinOp::Mul,
                            Box::new(ExprView::Number(2)),
                            Box::new(ExprView::Number(3)),
                        ),
                    ),
                ),
            );
            parse_program_spec(toks, LexFin::Done) == Ok::<Seq<StmtView>, Fault>(seq![ast])
                && exec_stmts_spec(Map::empty(), 0, seq![ast], None).0 == Ok::<
                Option<Value>,
                Fault,
            >(Some(Value::Int(7)))
        }),
{
    let fin = LexFin::Done;
    let toks = seq![
        TokenView::Number(1),
        TokenView::Plus,
        TokenView::Number(2),
        TokenView::Star,
        TokenView::Number(3),
    ];
    let s1 = seq![TokenView::Plus, TokenView::Number(2), TokenView::Star, TokenView::Number(3)];
    let s2 = seq![TokenView::Number(2), TokenView::Star, TokenView::Number(3)];
    let s3 = seq![TokenView::Star, TokenView::Number(3)];
    let s4 = seq![TokenView::Number(3)];
    let s5 = Seq::<TokenView>::empty();
    assert(toks.skip(1) =~= s1);
    assert(s1.skip(1) =~= s2);
    assert(s2.skip(1) =~= s3);
    assert(s3.skip(1) =~= s4);
    assert(s4.skip(1) =~= s5);
    let two_times_three = ExprView::Binary(
        BinOp::Mul,
        Box::new(ExprView::Number(2)),
        Box::new(ExprView::Number(3)),
    );
    let sum = ExprView::Binary(
        BinOp::Add,
        Box::new(ExprView::Number(1)),
        Box::new(two_times_three),
    );
    let ast = StmtView::Expr(sum);
    assert(parse_primary_spec(toks, fin) == Ok::<(ExprView, Seq<TokenView>), Fault>(
        (ExprView::Number(1), s1),
    ));
    assert(parse_mul_spec(toks, fin) == Ok::<(ExprView, Seq<TokenView>), Fault>(
        (ExprView::Number(1), s1),
    ));
    assert(parse_primary_spec(s2, fin) == Ok::<(ExprView, Seq<TokenView>), Fault>(
        (ExprView::Number(2), s3),
    ));
    assert(parse_primary_spec(s4, fin) == Ok::<(ExprView, Seq<TokenView>), Fault>(
        (ExprView::Number(3), s5),
    ));
    assert(parse_mul_tail_spec(s3, fin, ExprView::Number(2)) == Ok::<
        (ExprView, Seq<TokenView>),
        Fault,
    >((two_times_three, s5))) by {
        reveal_with_fuel(crate::parser::parse_mul_tail_spec, 3);
    }
    assert(parse_mul_spec(s2, fin) == Ok::<(ExprView, Seq<TokenView>), Fault>(
        (two_times_three, s5),
    ));
    assert(parse_add_tail_spec(s1, fin, ExprView::Number(1)) == Ok::<
        (ExprView, Seq<TokenView>),
        Fault,
    >((sum, s5))) by {
        reveal_with_fuel(crate::parser::parse_add_tail_spec, 3);
    }
    assert(parse_expr_spec(toks, fin) == Ok::<(ExprView, Seq<TokenView>), Fault>((sum, s5)));
    assert(parse_stmt_spec(toks, fin) == Ok::<(StmtView, Seq<TokenView>), Fault>((ast, s5)));
    assert(parse_program_spec(toks, fin) == Ok::<Seq<StmtView>, Fault>(seq![ast] + Seq::empty()))
        by {
        reveal_with_fuel(crate::parser::parse_program_spec, 3);
    }
    assert(seq![ast] + Seq::<StmtView>::empty() =~= seq![ast]);
    assert(eval_expr_spec(Map::empty(), 0, two_times_three).0 == Ok::<Value, Fault>(
        Value::Int(6),
    )) by {
        reveal_with_fuel(eval_expr_spec, 3);
    }
    assert(eval_expr_spec(Map::empty(), 0, sum) == (Ok::<Value, Fault>(Value::Int(7)), 0i64))
        by {
        reveal_with_fuel(eval_expr_spec, 4);
    }
    assert(seq![ast].skip(1) =~= Seq::<StmtView>::empty());
    assert(exec_stmts_spec(Map::empty(), 0, seq![ast], None).0 == Ok::<Option<Value>, Fault>(
        Some(Value::Int(7)),
    )) by {
        reveal_with_fuel(exec_stmts_spec, 3);
    }
}

/// Inertness of the clock type: combining two clock values with any binary
/// operator — however symmetric the expression — fails type checking with
/// the operand-kind mismatch, under every typing environment.
pub proof fn lemma_clock_inert(tenv: Map<Seq<char>, Type>, op: BinOp)
    ensures
        check_expr_spec(
            tenv,
            ExprView::Binary(op, Box::new(ExprView::Now), Box::new(ExprView::Now)),
        ) == Err::<Type, CheckErr>(CheckErr::Mismatch),
{
    reveal_with_fuel(check_expr_spec, 3);
}

/// The division-by-zero boundary: `5 / 0` passes type checking (both
/// operands are integers) but faults at evaluation time — that fault class
/// is outside the soundness guarantee.
pub proof fn lemma_division_by_zero_boundary()
    ensures
        ({
            let prog = seq![
                StmtView::Expr(
                    ExprView::Binary(
                        BinOp::Div,
                        Box::new(ExprView::Number(5)),
                        Box::new(ExprView::Number(0)),
                    ),
                ),
            ];
            check_stmts_spec(Map::empty(), prog).1 is None && exec_stmts_spec(
                Map::empty(),
                0,
                prog,
                None,
            ).0 == Err::<Option<Value>, Fault>(Fault::DivisionByZero)
        }),
{
    reveal_with_fuel(check_stmts_spec, 3);
    reveal_with_fuel(exec_stmts_spec, 3);
    reveal_with_fuel(check_expr_spec, 3);
    reveal_with_fuel(eval_expr_spec, 3);
    let prog = seq![
        StmtView::Expr(
            ExprView::Binary(
                BinOp::Div,
                Box::new(ExprView::Number(5)),
                Box::new(ExprView::Number(0)),
            ),
        ),
    ];
    assert(prog.skip(1) =~= Seq::<StmtView>::empty());
}

/// Result presence, the general half: a program with no bare-expression
/// statement never produces a value — bindings alone leave the candidate
/// result untouched.
pub proof fn lemma_no_bare_statement_no_result(
    env: Map<Seq<char>, Value>,
    t: i64,
    stmts: Seq<StmtView>,
    last: Option<Value>,
)
    requires
        forall|i: int| 0 <= i < stmts.len() ==> stmts[i] is Let,
    ensures
        exec_stmts_spec(env, t, stmts, last).0 is Ok ==> exec_stmts_spec(
            env,
            t,
            stmts,
            last,
        ).0->Ok_0 == last,
    decreases stmts.len(),
{
    if stmts.len() > 0 {
        match stmts[0] {
            StmtView::Let(n, e) => {
                let er = eval_expr_spec(env, t, e);
                match er.0 {
                    Err(_) => {
                    },
                    Ok(v) => {
                        lemma_no_bare_statement_no_result(
                            env.insert(n, v),
                            er.1,
                            stmts.skip(1),
                            last,
                        );
                    },
                }
            },
            StmtView::Expr(_) => {
                assert(false);
            },
        }
    }
}

/// Result presence, the concrete halves: `let a = 10` followed by the bare
/// statement `a` yields the integer 10; the binding alone yields no result.
pub proof fn lemma_result_presence(n: Seq<char>)
    ensures
        exec_stmts_spec(
            Map::empty(),
            0,
            seq![StmtView::Let(n, ExprView::Number(10)), StmtView::Expr(ExprView::Var(n))],
            None,
        ).0 == Ok::<Option<Value>, Fault>(Some(Value::Int(10))),
        exec_stmts_spec(
            Map::empty(),
            0,
            seq![StmtView::Let(n, ExprView::Number(10))],
            None,
        ).0 == Ok::<Option<Value>, Fault>(None),
{
    reveal_with_fuel(check_stmts_spec, 4);
    reveal_with_fuel(exec_stmts_spec, 4);
    reveal_with_fuel(eval_expr_spec, 2);
    let prog = seq![StmtView::Let(n, ExprView::Number(10)), StmtView::Expr(ExprView::Var(n))];
    assert(prog.skip(1) =~= seq![StmtView::Expr(ExprView::Var(n))]);
    assert(prog.skip(1).skip(1) =~= Seq::<StmtView>::empty());
    let prog2 = seq![StmtView::Let(n, ExprView::Number(10))];
    assert(prog2.skip(1) =~= Seq::<StmtView>::empty());
}

/// The clock never runs backwards: evaluating any expression leaves the
/// logical clock at or above where it started.
pub proof fn lemma_clock_monotonic(env: Map<Seq<char>, Value>, t: i64, e: ExprView)
    ensures
        t <= eval_expr_spec(env, t, e).1,
    decreases e,
{
    match e {
        ExprView::Binary(op, l, r) => {
            lemma_clock_monotonic(env, t, *l);
            let lr = eval_expr_spec(env, t, *l);
            if lr.0 is Ok {
                lemma_clock_monotonic(env, lr.1, *r);
            }
        },
        _ => {
        },
    }
}

/// The clock never runs backwards across statements either: running any
/// program leaves the logical clock at or above where it started.
pub proof fn lemma_run_clock_monotonic(
    env: Map<Seq<char>, Value>,
    t: i64,
    stmts: Seq<StmtView>,
    last: Option<Value>,
)
    ensures
        t <= exec_stmts_spec(env, t, stmts, last).2,
    decreases stmts.len(),
{
    if stmts.len() > 0 {
        match stmts[0] {
            StmtView::Let(n, e) => {
                lemma_clock_monotonic(env, t, e);
                let er = eval_expr_spec(env, t, e);
                if er.0 is Ok {
                    lemma_run_clock_monotonic(env.insert(n, er.0->Ok_0), er.1, stmts.skip(1), last);
                }
            },
            StmtView::Expr(e) => {
                lemma_clock_monotonic(env, t, e);
                let er = eval_expr_spec(env, t, e);
                if er.0 is Ok {
                    lemma_run_clock_monotonic(env, er.1, stmts.skip(1), Some(er.0->Ok_0));
                }
            },
        }
    }
}

/// Clock monotonicity, concretely: a program of two bare `now` statements
/// observes the strictly increasing ticks 0 and then 1 — the first
/// observation is discarded as a result but its clock advance persists —
/// so the program's result is the second tick and the clock ends at 2.
pub proof fn lemma_clock_ticks()
    ensures
        ({
            let prog = seq![StmtView::Expr(ExprView::Now), StmtView::Expr(ExprView::Now)];
            eval_expr_spec(Map::empty(), 0, ExprView::Now) == (
                Ok::<Value, Fault>(Value::Time(0)),
                1i64,
            ) && eval_expr_spec(Map::empty(), 1, ExprView::Now) == (
                Ok::<Value, Fault>(Value::Time(1)),
                2i64,
            ) && exec_stmts_spec(Map::empty(), 0, prog, None).0 == Ok::<Option<Value>, Fault>(
                Some(Value::Time(1)),
            ) && exec_stmts_spec(Map::empty(), 0, prog, None).2 == 2
        }),
{
    reveal_with_fuel(exec_stmts_spec, 4);
    reveal_with_fuel(eval_expr_spec, 2);
    let prog = seq![StmtView::Expr(ExprView::Now), StmtView::Expr(ExprView::Now)];
    assert(prog.skip(1) =~= seq![StmtView::Expr(ExprView::Now)]);
    assert(prog.skip(1).skip(1) =~= Seq::<StmtView>::empty());
    assert(tick(0) == 1);
    assert(tick(1) == 2);
}

} // verus!
