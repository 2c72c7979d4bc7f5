use input_display::dpad::update_dpad;
use input_display::dpad::DpadKey;
use input_display::scene::standard_dpad;
use input_display::scene::standard_keys;
use input_display::scene::DOWN;
use input_display::scene::LEFT;
use input_display::scene::RIGHT;
use input_display::scene::UP;

#[test]
fn dpad_key_new_sets_every_field() {
    let d = DpadKey::new(3, 2, 0, 0, 2, -2, 2, 2, 30, 12, 7);
    assert_eq!(d.key_id, 3);
    assert_eq!(d.pressed_x_shift, 2);
    assert_eq!(d.pressed_y_shift, 0);
    assert_eq!(d.overhang.x_src, 0);
    assert_eq!(d.overhang.y_src, 2);
    assert_eq!(d.overhang.x_dest, -2);
    assert_eq!(d.overhang.y_dest, 2);
    assert_eq!(d.overhang.width, 2);
    assert_eq!(d.overhang.height, 30);
    assert_eq!(d.arrow.idx, 3);
    assert!(!d.arrow.pressed);
    assert_eq!(d.arrow.key_x_offset, 12);
    assert_eq!(d.arrow.key_y_offset, 7);
    assert_eq!(d.arrow.current_x_shift, 0);
    assert_eq!(d.arrow.current_y_shift, 0);
}

#[test]
fn pressing_up_alone_shifts_up_by_two() {
    let mut keys = standard_keys();
    let mut dpads = standard_dpad();
    keys[UP].set_pressed(true);
    update_dpad(&mut dpads, &mut keys);
    for d in &dpads {
        assert_eq!(d.arrow.current_x_shift, 0);
        assert_eq!(d.arrow.current_y_shift, -2);
    }
    assert!(dpads[UP].arrow.pressed);
    assert!(!dpads[DOWN].arrow.pressed);
    // the pressed key keeps its plain pressed sprite
    assert!(keys[UP].pressed && !keys[UP].contracted && !keys[UP].elongated);
    // the idle directional keys stretch upward
    for k in [DOWN, LEFT, RIGHT] {
        assert!(keys[k].elongated);
        assert!(!keys[k].contracted);
    }
}

#[test]
fn pressing_up_and_left_combines_diagonally() {
    let mut keys = standard_keys();
    let mut dpads = standard_dpad();
    keys[UP].set_pressed(true);
    keys[LEFT].set_pressed(true);
    update_dpad(&mut dpads, &mut keys);
    for d in &dpads {
        assert_eq!(d.arrow.current_x_shift, -2);
        assert_eq!(d.arrow.current_y_shift, -2);
    }
}

#[test]
fn opposite_presses_cancel_exactly() {
    let mut keys = standard_keys();
    let mut dpads = standard_dpad();
    keys[LEFT].set_pressed(true);
    keys[RIGHT].set_pressed(true);
    update_dpad(&mut dpads, &mut keys);
    for d in &dpads {
        assert_eq!(d.arrow.current_x_shift, 0);
        assert_eq!(d.arrow.current_y_shift, 0);
    }
    // a zero vertical total leaves every key undeformed
    for k in &keys {
        assert!(!k.contracted && !k.elongated);
    }
}

#[test]
fn pressing_down_contracts_the_idle_keys() {
    let mut keys = standard_keys();
    let mut dpads = standard_dpad();
    keys[DOWN].set_pressed(true);
    update_dpad(&mut dpads, &mut keys);
    for d in &dpads {
        assert_eq!(d.arrow.current_y_shift, 2);
    }
    assert!(!keys[DOWN].contracted && !keys[DOWN].elongated);
    for k in [UP, LEFT, RIGHT] {
        assert!(keys[k].contracted && !keys[k].elongated);
    }
}

#[test]
fn length_flags_stay_exclusive_after_recomputes() {
    let mut keys = standard_keys();
    let mut dpads = standard_dpad();
    let combos: Vec<Vec<usize>> = vec![
        vec![UP],
        vec![UP, LEFT],
        vec![DOWN, RIGHT],
        vec![UP, DOWN],
        vec![UP, DOWN, LEFT, RIGHT],
        vec![],
    ];
    for combo in &combos {
        for k in 0..keys.len() {
            keys[k].set_pressed(false);
        }
        for &k in combo {
            keys[k].set_pressed(true);
        }
        update_dpad(&mut dpads, &mut keys);
        for k in &keys {
            assert!(!(k.contracted && k.elongated));
            if k.pressed {
                assert!(!k.contracted && !k.elongated);
            }
        }
    }
}

#[test]
fn arrow_sprite_index_offsets_the_pressed_variant() {
    let mut keys = standard_keys();
    let mut dpads = standard_dpad();
    keys[UP].set_pressed(true);
    update_dpad(&mut dpads, &mut keys);
    assert_eq!(dpads[UP].arrow.sprite_index(), 4);
    assert_eq!(dpads[LEFT].arrow.sprite_index(), 2);
}

#[test]
fn non_directional_keys_are_untouched() {
    let mut keys = standard_keys();
    let mut dpads = standard_dpad();
    keys[UP].set_pressed(true);
    update_dpad(&mut dpads, &mut keys);
    for k in &keys[4..] {
        assert!(!k.contracted && !k.elongated);
    }
}
