pub mod from_utf16_error;
pub mod to_lean_string_error;
