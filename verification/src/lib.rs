//! A batch interpreter for a minimal typed expression language: integer
//! arithmetic, rebindable `let` bindings, and a deterministic logical-clock
//! primitive spelled `now`.
//!
//! The pipeline runs in four strictly sequential stages: the tokenizer turns
//! source text into tokens, the recursive-descent parser builds a statement
//! list, the type checker assigns a type to every expression, and the
//! tree-walking evaluator produces an optional final value.  Each stage is
//! specified against a mathematical model of its input and output, and the
//! checker's soundness guarantee (a checked program never faults on an
//! undefined variable or an operand-kind mismatch) is proved in `laws`.

pub mod ast;
pub mod bindings;
pub mod diagnostic;
pub mod fault;
pub mod interpreter;
pub mod laws;
pub mod lexer;
pub mod parser;
pub mod pipeline;
pub mod typechecker;
pub mod types;
