use vstd::prelude::*;

verus! {

/// Boot modes for the bootable kernel test harness and the dedicated
/// destructive test kernels.
#[derive(Clone, Copy, Debug, PartialEq, Eq, Structural)]
pub enum BootScenario {
    Normal,
    TestHarness,
    Panic,
    InvalidOpcode,
    GeneralProtection,
    PageFault,
    DoubleFault,
}

/// The one-byte encoding of a scenario: its position in declaration order.
pub open spec fn scenario_code(s: BootScenario) -> u8 {
    match s {
        BootScenario::Normal => 0,
        BootScenario::TestHarness => 1,
        BootScenario::Panic => 2,
        BootScenario::InvalidOpcode => 3,
        BootScenario::GeneralProtection => 4,
        BootScenario::PageFault => 5,
        BootScenario::DoubleFault => 6,
    }
}

impl BootScenario {
    /// The one-byte encoding of this scenario.
    pub fn to_repr(self) -> (r: u8)
        ensures
            r == scenario_code(self),
    {
        match self {
            BootScenario::Normal => 0,
            BootScenario::TestHarness => 1,
            BootScenario::Panic => 2,
            BootScenario::InvalidOpcode => 3,
            BootScenario::GeneralProtection => 4,
            BootScenario::PageFault => 5,
            BootScenario::DoubleFault => 6,
        }
    }

    /// Decodes a one-byte scenario encoding; unknown values fall back to `Normal`.
    pub fn from_repr(value: u8) -> (r: Self)
        ensures
            value < 7 ==> scenario_code(r) == value,
            value >= 7 ==> r == BootScenario::Normal,
    {
        match value {
            0 => BootScenario::Normal,
            1 => BootScenario::TestHarness,
            2 => BootScenario::Panic,
            3 => BootScenario::InvalidOpcode,
            4 => BootScenario::GeneralProtection,
            5 => BootScenario::PageFault,
            6 => BootScenario::DoubleFault,
            _ => BootScenario::Normal,
        }
    }
}

/// The destructive-test selections a build was made with, one per test
/// feature (`test-panic`, `test-invalid-opcode`, `test-general-protection`,
/// `test-page-fault`, `test-double-fault`).
#[derive(Clone, Copy, Debug, PartialEq, Eq, Structural)]
pub struct TestFeatures {
    pub panic: bool,
    pub invalid_opcode: bool,
    pub general_protection: bool,
    pub page_fault: bool,
    pub double_fault: bool,
}

/// The scenario a build boots into: the first selected destructive test in
/// the order panic, invalid opcode, general protection, page fault, double
/// fault, and the normal boot when none is selected.
pub open spec fn scenario_for(f: TestFeatures) -> BootScenario {
    if f.panic {
        BootScenario::Panic
    } else if f.invalid_opcode {
        BootScenario::InvalidOpcode
    } else if f.general_protection {
        BootScenario::GeneralProtection
    } else if f.page_fault {
        BootScenario::PageFault
    } else if f.double_fault {
        BootScenario::DoubleFault
    } else {
        BootScenario::Normal
    }
}

/// Returns the single boot scenario selected for a build with `features`.
///
/// Destructive test selections take precedence so each dedicated fault run
/// produces exactly one intended behavior.
pub fn selected_boot_scenario(features: TestFeatures) -> (r: BootScenario)
    ensures
        r == scenario_for(features),
        r != BootScenario::TestHarness,
{
    if features.panic {
        return BootScenario::Panic;
    }
    if features.invalid_opcode {
        return BootScenario::InvalidOpcode;
    }
    if features.general_protection {
        return BootScenario::GeneralProtection;
    }
    if features.page_fault {
        return BootScenario::PageFault;
    }
    if features.double_fault {
        return BootScenario::DoubleFault;
    }
    BootScenario::Normal
}

/// How a panic or fault path ends.
#[derive(Clone, Copy, Debug, PartialEq, Eq, Structural)]
pub enum FaultAction {
    /// Exit QEMU with the passing test code.
    ExitSuccess,
    /// Report a failed test case, which exits QEMU with the failing code.
    ReportFailure,
    /// Enter the terminal halt loop.
    Halt,
}

/// How a panic or fault path that the scenario `expected` provokes ends when
/// the build booted into `selected`: success under that scenario, failure under
/// the test harness, and the terminal halt otherwise.
pub open spec fn fault_action_for(selected: BootScenario, expected: BootScenario) -> FaultAction {
    if selected == expected {
        FaultAction::ExitSuccess
    } else if selected == BootScenario::TestHarness {
        FaultAction::ReportFailure
    } else {
        FaultAction::Halt
    }
}

/// Decides how a panic or fault handler ends; `expected` is the scenario that
/// deliberately provokes it.
pub fn fault_action(selected: BootScenario, expected: BootScenario) -> (r: FaultAction)
    ensures
        r == fault_action_for(selected, expected),
{
    if selected == expected {
        FaultAction::ExitSuccess
    } else if selected == BootScenario::TestHarness {
        FaultAction::ReportFailure
    } else {
        FaultAction::Halt
    }
}

/// The byte to publish, in the shared scenario cell, for the scenario chosen
/// by the binary entrypoint.
pub fn set_active_boot_scenario(scenario: BootScenario) -> (r: u8)
    ensures
        r == scenario_code(scenario),
{
    scenario.to_repr()
}

/// The boot scenario that panic and fault handlers act on, given the byte
/// currently held in the shared scenario cell.
pub fn active_boot_scenario(stored: u8) -> (r: BootScenario)
    ensures
        stored < 7 ==> scenario_code(r) == stored,
        stored >= 7 ==> r == BootScenario::Normal,
{
    BootScenario::from_repr(stored)
}

/// Publishing a scenario and reading it back gives the same scenario.
pub proof fn lemma_scenario_round_trip(s: BootScenario)
    ensures
        scenario_code(s) < 7,
        forall|r: BootScenario| scenario_code(r) == scenario_code(s) ==> r == s,
{
}

} // verus!
