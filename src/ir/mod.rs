pub mod block;
pub mod builder;
pub mod function;
pub mod instruction;
pub mod register;
pub mod value;
