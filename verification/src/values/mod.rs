pub mod core_values;
pub mod typed_variants;
pub mod types;
pub mod value;
