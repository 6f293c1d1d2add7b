use vstd::prelude::*;

verus! {

/// The I/O port of QEMU's `isa-debug-exit` device in the test configuration.
pub const ISA_DEBUG_EXIT_PORT: u16 = 0xF4;

/// Exit codes written to QEMU's `isa-debug-exit` device during test runs.
#[derive(Clone, Copy, Debug, PartialEq, Eq, Structural)]
pub enum QemuExitCode {
    Success,
    Failed,
}

impl QemuExitCode {
    /// The 32-bit value written to the exit port for this code.
    pub fn code(self) -> (r: u32)
        ensures
            self == QemuExitCode::Success ==> r == 0x10,
            self == QemuExitCode::Failed ==> r == 0x11,
    {
        match self {
            QemuExitCode::Success => 0x10,
            QemuExitCode::Failed => 0x11,
        }
    }
}

} // verus!
