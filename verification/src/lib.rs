use vstd::prelude::*;

mod ast;
mod eval;
mod laws;
mod parser;

pub use ast::Atom;
pub use ast::EvalError;
pub use ast::Expr;
pub use ast::Tuple;
pub use eval::eval;
pub use parser::constval;
pub use parser::dice;
pub use parser::expr;
pub use parser::roll;
pub use parser::sum;
pub use parser::ParseErr;

verus! {

} // verus!
