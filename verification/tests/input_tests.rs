use input_display::input::find_key_for_code;
use input_display::input::key_state_from_wparam;
use input_display::input::KeyState;
use input_display::scene::standard_keys;
use input_display::scene::POWER;

#[test]
fn key_state_decodes_transitions() {
    assert_eq!(key_state_from_wparam(0x0100), KeyState::Pressed);
    assert_eq!(key_state_from_wparam(0x0104), KeyState::Pressed);
    assert_eq!(key_state_from_wparam(0x0101), KeyState::Released);
    assert_eq!(key_state_from_wparam(0x0105), KeyState::Released);
    assert_eq!(key_state_from_wparam(0x0200), KeyState::Other);
    assert_eq!(key_state_from_wparam(0), KeyState::Other);
}

#[test]
fn key_state_reads_the_low_32_bits() {
    assert_eq!(key_state_from_wparam(0x1_0000_0100), KeyState::Pressed);
}

#[test]
fn finds_first_key_bound_to_code() {
    let mut keys = standard_keys();
    keys[2].primary_input_code = 37;
    keys[5].primary_input_code = 37;
    keys[6].secondary_input_code = 40;
    assert_eq!(find_key_for_code(&keys, 37, false), Some(2));
    assert_eq!(find_key_for_code(&keys, 40, false), Some(6));
}

#[test]
fn restart_chord_falls_back_to_the_power_key() {
    let keys = standard_keys();
    assert_eq!(find_key_for_code(&keys, 82, true), Some(POWER));
    assert_eq!(find_key_for_code(&keys, 82, false), None);
}

#[test]
fn bound_key_wins_over_the_restart_chord() {
    let mut keys = standard_keys();
    keys[1].secondary_input_code = 82;
    assert_eq!(find_key_for_code(&keys, 82, true), Some(1));
}

#[test]
fn zero_code_matches_unbound_keys_first() {
    // Every standard key starts with both codes zero, so code 0 matches the
    // first key.
    let keys = standard_keys();
    assert_eq!(find_key_for_code(&keys, 0, false), Some(0));
}
