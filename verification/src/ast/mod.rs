pub mod expression;
pub mod unary_operation;
pub mod visitor;
