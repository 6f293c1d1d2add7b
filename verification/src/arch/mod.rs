//! Architecture-specific kernel logic.
pub mod x86_64;
