//! Boot-scenario selection and QEMU exit codes for the kernel's test runs.
pub mod qemu;
pub mod scenarios;

pub use qemu::QemuExitCode;
pub use scenarios::{BootScenario, FaultAction, TestFeatures, fault_action, selected_boot_scenario};
