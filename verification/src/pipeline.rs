use vstd::prelude::*;

use crate::diagnostic::Diagnostic;
use crate::fault::Fault;
use crate::interpreter::{Interpreter, Value, exec_stmts_spec};
use crate::lexer::{Lexer, lex_all};
use crate::parser::{Parser, parse_program_spec};
use crate::typechecker::{CheckErr, TypeChecker, check_stmts_spec, diag_matches};

verus! {

/// Why a run produced no value: a fatal fault (tokenizing, parsing, or
/// evaluation), or the type checker's diagnostic.
#[derive(Debug)]
pub enum RunError {
    Fault(Fault),
    Rejected(Diagnostic),
}

/// The abstract outcome of one whole run.
pub ghost enum RunOutcome {
    Value(Option<Value>),
    Fault(Fault),
    Rejected(CheckErr),
}

/// What running the pipeline on `src` must produce: tokenize and parse the
/// text, type-check the program from an empty environment, and — only if
/// checking succeeds — interpret it from an empty store with the clock at
/// zero, each stage stopping the run at its first failure.
pub open spec fn run_spec(src: Seq<char>) -> RunOutcome {
    let stream = lex_all(src, 0);
    match parse_program_spec(stream.0, stream.1) {
        Err(f) => RunOutcome::Fault(f),
        Ok(stmts) => {
            match check_stmts_spec(Map::empty(), stmts).1 {
                Some(c) => RunOutcome::Rejected(c),
                None => {
                    match exec_stmts_spec(Map::empty(), 0, stmts, None).0 {
                        Err(f) => RunOutcome::Fault(f),
                        Ok(ov) => RunOutcome::Value(ov),
                    }
                },
            }
        },
    }
}

/// Run a program given as source text, exactly as `run_spec` says.
pub fn run_program(input: &str) -> (r: Result<Option<Value>, RunError>)
    ensures
        match run_spec(input@) {
            RunOutcome::Value(ov) => r == Ok::<Option<Value>, RunError>(ov),
            RunOutcome::Fault(f) => match r {
                Err(RunError::Fault(f2)) => f2 == f,
                _ => false,
            },
            RunOutcome::Rejected(c) => match r {
                Err(RunError::Rejected(d)) => diag_matches(c, d),
                _ => false,
            },
        },
{
    let lexer = Lexer::new(input);
    let mut parser = match Parser::new(lexer) {
        Ok(p) => p,
        Err(f) => {
            return Err(RunError::Fault(f));
        },
    };
    let program = match parser.parse() {
        Ok(p) => p,
        Err(f) => {
            return Err(RunError::Fault(f));
        },
    };
    let mut typechecker = TypeChecker::new();
    match typechecker.check(program.as_slice()) {
        Ok(()) => {
        },
        Err(d) => {
            return Err(RunError::Rejected(d));
        },
    }
    let mut interpreter = Interpreter::new();
    match interpreter.execute(program.as_slice()) {
        Ok(ov) => Ok(ov),
        Err(f) => Err(RunError::Fault(f)),
    }
}

} // verus!
