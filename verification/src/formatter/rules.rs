//! The layout rules of each kind of expression.

pub mod expressions;
pub mod control_flow;
pub mod functions;
pub mod arguments;
