pub mod type_compiler;
pub mod value_compiler;
