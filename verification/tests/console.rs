use winnie_os::drivers::vga::{BUFFER_BYTES, COLOR, VgaCursor, write_bytes};
use winnie_os::test_support::qemu::QemuExitCode;
use winnie_os::test_support::scenarios::{
    BootScenario, FaultAction, TestFeatures, active_boot_scenario, fault_action,
    selected_boot_scenario, set_active_boot_scenario,
};

fn features(bits: [bool; 5]) -> TestFeatures {
    TestFeatures {
        panic: bits[0],
        invalid_opcode: bits[1],
        general_protection: bits[2],
        page_fault: bits[3],
        double_fault: bits[4],
    }
}

const BLANK: u8 = 0;

fn blank_screen() -> [u8; BUFFER_BYTES] {
    [BLANK; BUFFER_BYTES]
}

#[test]
fn vga_writes_cells_and_breaks_lines() {
    let mut cursor = VgaCursor::new();
    let mut screen = blank_screen();
    write_bytes(&mut cursor, b"Hi\nA", &mut screen);
    let mut expected = blank_screen();
    expected[0] = b'H';
    expected[1] = COLOR;
    expected[2] = b'i';
    expected[3] = COLOR;
    expected[160] = b'A';
    expected[161] = COLOR;
    assert_eq!(screen, expected);
    assert_eq!(COLOR, 0x0F);
}

#[test]
fn vga_wraps_full_rows() {
    let mut cursor = VgaCursor::new();
    let mut screen = blank_screen();
    let line = [b'x'; 81];
    write_bytes(&mut cursor, &line, &mut screen);
    assert_eq!(screen[158], b'x');
    assert_eq!(screen[160], b'x');
    assert_eq!(screen[161], COLOR);
    assert_eq!(screen[162], BLANK);
    assert_eq!(screen.iter().filter(|b| **b == b'x').count(), 81);
}

#[test]
fn vga_clamps_to_the_bottom_row() {
    let mut cursor = VgaCursor::new();
    let mut screen = blank_screen();
    let newlines = [b'\n'; 40];
    write_bytes(&mut cursor, &newlines, &mut screen);
    assert_eq!(screen, blank_screen());
    write_bytes(&mut cursor, b"z", &mut screen);
    assert_eq!(screen[24 * 160], b'z');
    assert_eq!(screen[24 * 160 + 1], COLOR);
    let many = [b'y'; 200];
    write_bytes(&mut cursor, &many, &mut screen);
    // The 200 bytes fill the rest of the bottom row, then wrap onto it again.
    assert_eq!(screen[24 * 160 + 2 * 40], b'y');
    assert_eq!(screen[24 * 160 + 2 * 41], b'y');
    assert!(screen[..24 * 160].iter().all(|b| *b == BLANK));
    assert!(screen[24 * 160..].iter().step_by(2).all(|b| *b == b'y'));
}

#[test]
fn qemu_exit_codes() {
    assert_eq!(QemuExitCode::Success.code(), 0x10);
    assert_eq!(QemuExitCode::Failed.code(), 0x11);
}

#[test]
fn boot_scenario_round_trip() {
    for s in [
        BootScenario::Normal,
        BootScenario::TestHarness,
        BootScenario::Panic,
        BootScenario::InvalidOpcode,
        BootScenario::GeneralProtection,
        BootScenario::PageFault,
        BootScenario::DoubleFault,
    ] {
        assert_eq!(active_boot_scenario(set_active_boot_scenario(s)), s);
    }
    assert_eq!(active_boot_scenario(200), BootScenario::Normal);
    assert_eq!(BootScenario::from_repr(5), BootScenario::PageFault);
    assert_eq!(BootScenario::DoubleFault.to_repr(), 6);
}

#[test]
fn boot_scenario_selection_precedence() {
    assert_eq!(selected_boot_scenario(features([false; 5])), BootScenario::Normal);
    assert_eq!(selected_boot_scenario(features([true; 5])), BootScenario::Panic);
    assert_eq!(selected_boot_scenario(features([false, true, true, true, true])), BootScenario::InvalidOpcode);
    assert_eq!(
        selected_boot_scenario(features([false, false, true, true, true])),
        BootScenario::GeneralProtection
    );
    assert_eq!(selected_boot_scenario(features([false, false, false, true, true])), BootScenario::PageFault);
    assert_eq!(selected_boot_scenario(features([false, false, false, false, true])), BootScenario::DoubleFault);
}

#[test]
fn fault_paths_end_by_scenario() {
    assert_eq!(fault_action(BootScenario::PageFault, BootScenario::PageFault), FaultAction::ExitSuccess);
    assert_eq!(fault_action(BootScenario::TestHarness, BootScenario::PageFault), FaultAction::ReportFailure);
    assert_eq!(fault_action(BootScenario::Normal, BootScenario::PageFault), FaultAction::Halt);
    assert_eq!(fault_action(BootScenario::DoubleFault, BootScenario::PageFault), FaultAction::Halt);
    assert_eq!(fault_action(BootScenario::Panic, BootScenario::Panic), FaultAction::ExitSuccess);
}
