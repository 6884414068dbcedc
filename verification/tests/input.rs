use medieval::input::NativeBattleOpenResult;
use medieval::input::{
    accept_browser_sequence, browser_input_enabled, digit_from_code, key_command, selection_kind,
    InputModifiers, KeyCommand, FRAME_INTERVAL_MS,
};

#[test]
fn frame_scheduler_is_bounded_to_about_sixty_hz() {
    assert_eq!(FRAME_INTERVAL_MS, 16);
}

#[test]
fn browser_input_is_used_only_for_overlay_platforms() {
    assert!(browser_input_enabled("windows"));
    assert!(browser_input_enabled("macos"));
    assert!(!browser_input_enabled("linux"));
}

#[test]
fn modifiers_choose_the_selection_kind() {
    assert_eq!(selection_kind(InputModifiers::default()), "selectReplace");
    assert_eq!(selection_kind(InputModifiers { shift: true, control: false }), "selectAdd");
    assert_eq!(selection_kind(InputModifiers { shift: true, control: true }), "selectToggle");
}

#[test]
fn digit_key_codes_name_their_digit() {
    assert_eq!(digit_from_code("Digit0"), Some(0));
    assert_eq!(digit_from_code("Digit7"), Some(7));
    assert_eq!(digit_from_code("Numpad3"), None);
    assert_eq!(digit_from_code("KeyA"), None);
    assert_eq!(digit_from_code("Digit"), None);
}

#[test]
fn keyboard_camera_groups_and_escape_map_to_semantic_controls() {
    let plain = InputModifiers::default();
    assert_eq!(key_command("Escape", plain), KeyCommand::Close);
    assert_eq!(key_command("ArrowLeft", plain), KeyCommand::PanLeft);
    assert_eq!(key_command("ArrowDown", plain), KeyCommand::PanDown);
    assert_eq!(key_command("NumpadAdd", plain), KeyCommand::ZoomIn);
    assert_eq!(key_command("Minus", plain), KeyCommand::ZoomOut);
    assert_eq!(key_command("Space", plain), KeyCommand::FitCamera);
    assert_eq!(key_command("KeyS", plain), KeyCommand::StopSelected);
    assert_eq!(
        key_command("Digit4", InputModifiers { shift: false, control: true }),
        KeyCommand::AssignControlGroup { group: 4 }
    );
    assert_eq!(
        key_command("Digit2", InputModifiers { shift: true, control: false }),
        KeyCommand::RecallControlGroup { group: 2, additive: true }
    );
    assert_eq!(key_command("KeyQ", plain), KeyCommand::Nothing);
}

#[test]
fn browser_inputs_are_taken_in_sequence() {
    assert_eq!(accept_browser_sequence(1, 1), Ok(2));
    assert_eq!(accept_browser_sequence(u64::MAX, u64::MAX), Ok(u64::MAX));
    assert_eq!(
        accept_browser_sequence(3, 5),
        Err("desktop tactical input sequence mismatch: expected 3, received 5".to_string())
    );
}

#[test]
fn opening_the_battle_window_reports_browser_input_by_platform() {
    assert!(NativeBattleOpenResult::for_target("windows").browser_input());
    assert!(NativeBattleOpenResult::for_target("macos").browser_input());
    assert!(!NativeBattleOpenResult::for_target("linux").browser_input());
}
