//! Rule-expression scanning and the small configuration helpers around it.
pub mod text;
pub mod expr;
pub mod expr_laws;
pub mod env;
pub mod user;
pub mod expr_spans;
pub mod expr_respace;
