//! Physical-memory address and frame primitives for early runtime ownership.
pub mod allocator;
pub mod frame;

pub use frame::{FRAME_SIZE, PhysicalAddress, PhysicalFrame};
