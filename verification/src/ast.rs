//! The abstract syntax tree: expression and statement nodes, their
//! mathematical mirror, and rendering back to text.

pub mod expressions;
pub mod model;
pub mod node;
pub mod statements;
