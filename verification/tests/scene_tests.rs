use input_display::bmp::Bitmap;
use input_display::gfx::BackBuffer;
use input_display::gfx::SpriteSheet;
use input_display::key::Key;
use input_display::palette::synthesize;
use input_display::palette::Color;
use input_display::scene::draw_background;
use input_display::scene::standard_dpad;
use input_display::scene::standard_keys;
use input_display::scene::HEIGHT;
use input_display::scene::KEY_SIZE;
use input_display::scene::UP;
use input_display::scene::WIDTH;

fn c(r: u8, g: u8, b: u8) -> Color {
    Color { r, g, b }
}

fn zero_sheet(width: i32, height: i32, sprite: i32) -> SpriteSheet {
    let data = vec![0u8; (width * height) as usize];
    SpriteSheet::new(Bitmap { width, height, data }, sprite, sprite)
}

#[test]
fn standard_layout_positions_and_names() {
    let keys = standard_keys();
    assert_eq!(keys.len(), 9);
    let expect: Vec<(&str, i32, i32, i32)> = vec![
        ("UP", 68, 68, 5),
        ("DOWN", 68, 136, 6),
        ("LEFT", 34, 102, 7),
        ("RIGHT", 102, 102, 8),
        ("SELECT", 119, 204, 2),
        ("START", 153, 204, 3),
        ("B", 187, 136, 1),
        ("A", 238, 102, 0),
        ("POWER", 238, 28, 4),
    ];
    for (k, e) in keys.iter().zip(expect.iter()) {
        assert_eq!(k.name, e.0);
        assert_eq!(k.x, e.1);
        assert_eq!(k.y, e.2);
        assert_eq!(k.sprite_id, e.3);
        assert_eq!(k.primary_input_code, 0);
        assert_eq!(k.secondary_input_code, 0);
        assert!(!k.pressed && !k.contracted && !k.elongated);
    }
}

#[test]
fn standard_dpad_deltas_per_direction() {
    let dpads = standard_dpad();
    assert_eq!(dpads.len(), 4);
    assert_eq!((dpads[0].pressed_x_shift, dpads[0].pressed_y_shift), (0, -2));
    assert_eq!((dpads[1].pressed_x_shift, dpads[1].pressed_y_shift), (0, 2));
    assert_eq!((dpads[2].pressed_x_shift, dpads[2].pressed_y_shift), (-2, 0));
    assert_eq!((dpads[3].pressed_x_shift, dpads[3].pressed_y_shift), (2, 0));
    for (i, d) in dpads.iter().enumerate() {
        assert_eq!(d.key_id, i);
        assert_eq!(d.arrow.idx, i as i32);
        assert_eq!((d.overhang.width, d.overhang.height) == (30, 2), i < 2);
    }
}

#[test]
fn key_sprite_index_packs_state_bits() {
    let mut k = Key {
        primary_input_code: 0,
        secondary_input_code: 0,
        name: String::new(),
        x: 0,
        y: 0,
        sprite_id: 5,
        pressed: false,
        contracted: false,
        elongated: false,
    };
    assert_eq!(k.sprite_index(), 5);
    k.set_pressed(true);
    assert_eq!(k.sprite_index(), 21);
    k.set_pressed(false);
    k.set_length_state(input_display::key::LengthState::Contracted);
    assert_eq!(k.sprite_index(), 37);
    k.clear_length_state();
    k.set_length_state(input_display::key::LengthState::Elongated);
    assert_eq!(k.sprite_index(), 69);
    k.clear_length_state();
    assert_eq!(k.sprite_index(), 5);
}

#[test]
fn frame_clears_to_the_chroma_key_color() {
    let mut buffer = BackBuffer::new(WIDTH, HEIGHT);
    let palette = synthesize(&[c(0, 0, 0), c(225, 128, 150), c(113, 182, 208), c(248, 248, 248)]);
    // sheets large enough for every sprite variant the layout uses
    let keyset = zero_sheet(KEY_SIZE * 8, KEY_SIZE * 9, KEY_SIZE);
    let arrowset = zero_sheet(14 * 8, 14, 14);
    let font = zero_sheet(16 * 26, 16, 16);
    let mut keys = standard_keys();
    let mut dpads = standard_dpad();
    draw_background(
        &mut buffer,
        &palette,
        &keyset,
        &arrowset,
        &font,
        &mut keys,
        &mut dpads,
        "",
    );
    // (0, 0) is covered by no sprite: it holds palette[4] (the background
    // color with green nudged by one) in reversed channel order.
    assert_eq!(buffer.memory[0], 248);
    assert_eq!(buffer.memory[1], 249);
    assert_eq!(buffer.memory[2], 248);
    // inside the up key: the all-zero tile paints palette[0]
    let inside = 4 * ((70 * WIDTH as usize) + 70);
    assert_eq!(buffer.memory[inside], 0);
    // nothing pressed: a zero total leaves every key undeformed
    for k in &keys {
        assert!(!k.contracted && !k.elongated);
    }
}

#[test]
fn frame_never_touches_the_fourth_pixel_bytes() {
    let mut buffer = BackBuffer::new(WIDTH, HEIGHT);
    for p in 0..(WIDTH * HEIGHT) as usize {
        buffer.memory[4 * p + 3] = (p % 251) as u8;
    }
    let palette = synthesize(&[c(0, 0, 0), c(225, 128, 150), c(113, 182, 208), c(248, 248, 248)]);
    let keyset = zero_sheet(KEY_SIZE * 8, KEY_SIZE * 9, KEY_SIZE);
    let arrowset = zero_sheet(14 * 8, 14, 14);
    let font = zero_sheet(16 * 26, 16, 16);
    let mut keys = standard_keys();
    let mut dpads = standard_dpad();
    keys[UP].set_pressed(true);
    draw_background(
        &mut buffer,
        &palette,
        &keyset,
        &arrowset,
        &font,
        &mut keys,
        &mut dpads,
        "AZ",
    );
    for p in 0..(WIDTH * HEIGHT) as usize {
        assert_eq!(buffer.memory[4 * p + 3], (p % 251) as u8);
    }
}

#[test]
fn redraw_with_no_input_change_is_idempotent() {
    let mut buffer = BackBuffer::new(WIDTH, HEIGHT);
    let palette = synthesize(&[c(0, 0, 0), c(225, 128, 150), c(113, 182, 208), c(248, 248, 248)]);
    let keyset = zero_sheet(KEY_SIZE * 8, KEY_SIZE * 9, KEY_SIZE);
    let arrowset = zero_sheet(14 * 8, 14, 14);
    let font = zero_sheet(16 * 26, 16, 16);
    let mut keys = standard_keys();
    let mut dpads = standard_dpad();
    keys[UP].set_pressed(true);
    draw_background(
        &mut buffer,
        &palette,
        &keyset,
        &arrowset,
        &font,
        &mut keys,
        &mut dpads,
        "AB",
    );
    let first = buffer.memory.clone();
    let keys_first: Vec<(bool, bool, bool)> =
        keys.iter().map(|k| (k.pressed, k.contracted, k.elongated)).collect();
    let arrows_first: Vec<(bool, i32, i32)> = dpads
        .iter()
        .map(|d| (d.arrow.pressed, d.arrow.current_x_shift, d.arrow.current_y_shift))
        .collect();
    draw_background(
        &mut buffer,
        &palette,
        &keyset,
        &arrowset,
        &font,
        &mut keys,
        &mut dpads,
        "AB",
    );
    assert_eq!(buffer.memory, first);
    let keys_second: Vec<(bool, bool, bool)> =
        keys.iter().map(|k| (k.pressed, k.contracted, k.elongated)).collect();
    let arrows_second: Vec<(bool, i32, i32)> = dpads
        .iter()
        .map(|d| (d.arrow.pressed, d.arrow.current_x_shift, d.arrow.current_y_shift))
        .collect();
    assert_eq!(keys_second, keys_first);
    assert_eq!(arrows_second, arrows_first);
}

#[test]
fn frame_recomputes_the_pad_state() {
    let mut buffer = BackBuffer::new(WIDTH, HEIGHT);
    let palette = synthesize(&[c(0, 0, 0), c(96, 186, 46), c(96, 186, 46), c(248, 248, 248)]);
    let keyset = zero_sheet(KEY_SIZE * 8, KEY_SIZE * 9, KEY_SIZE);
    let arrowset = zero_sheet(14 * 8, 14, 14);
    let font = zero_sheet(16 * 26, 16, 16);
    let mut keys = standard_keys();
    let mut dpads = standard_dpad();
    keys[UP].set_pressed(true);
    draw_background(
        &mut buffer,
        &palette,
        &keyset,
        &arrowset,
        &font,
        &mut keys,
        &mut dpads,
        "PRESS UP",
    );
    for d in &dpads {
        assert_eq!(d.arrow.current_y_shift, -2);
    }
    assert!(dpads[UP].arrow.pressed);
    assert!(keys[1].elongated && !keys[1].contracted);
    assert!(!keys[UP].elongated && !keys[UP].contracted);
}
