//! Console drivers.
pub mod vga;
