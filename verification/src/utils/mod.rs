pub mod buffers;
pub mod strings;
