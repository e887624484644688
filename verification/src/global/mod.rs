pub mod instruction_codes;
