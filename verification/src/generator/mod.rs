//! Output naming and formatting policy of the C and Rust backends.

pub mod c;
pub mod rust;
