use input_display::bmp::Bitmap;
use input_display::gfx::BackBuffer;
use input_display::gfx::CompositeError;
use input_display::gfx::SpriteSheet;
use input_display::palette::Color;

fn c(r: u8, g: u8, b: u8) -> Color {
    Color { r, g, b }
}

fn six_colors() -> Vec<Color> {
    vec![
        c(1, 2, 3),
        c(11, 12, 13),
        c(21, 22, 23),
        c(31, 32, 33),
        c(41, 42, 43),
        c(51, 52, 53),
    ]
}

#[test]
fn backbuffer_new_is_zeroed_with_presentation_header() {
    let b = BackBuffer::new(3, 2);
    assert_eq!(b.width, 3);
    assert_eq!(b.height, 2);
    assert_eq!(b.memory.len(), 24);
    assert!(b.memory.iter().all(|&v| v == 0));
    assert_eq!(b.info.header.size, 40);
    assert_eq!(b.info.header.width, 3);
    assert_eq!(b.info.header.height, -2);
    assert_eq!(b.info.header.planes, 1);
    assert_eq!(b.info.header.bit_count, 32);
    assert_eq!(b.info.header.compression, 0);
    assert_eq!(b.info.colors, 0);
}

#[test]
fn clear_writes_reversed_channels_and_keeps_fourth_byte() {
    let mut b = BackBuffer::new(2, 2);
    b.memory[3] = 99;
    b.memory[15] = 77;
    b.clear(c(10, 20, 30));
    for p in 0..4 {
        assert_eq!(b.memory[4 * p], 30); // blue first
        assert_eq!(b.memory[4 * p + 1], 20);
        assert_eq!(b.memory[4 * p + 2], 10);
    }
    assert_eq!(b.memory[3], 99);
    assert_eq!(b.memory[15], 77);
}

#[test]
fn single_pixel_tile_writes_reversed_palette_color() {
    // A one-pixel sprite holding palette index 2, drawn at (1, 0) of a 2x1
    // surface: the three leading bytes become palette[2] reversed, the
    // fourth stays.
    let sheet = SpriteSheet::new(Bitmap { width: 1, height: 1, data: vec![2] }, 1, 1);
    let mut b = BackBuffer::new(2, 1);
    b.memory[7] = 55;
    let pal = six_colors();
    let r = b.draw_sprite(&pal, &sheet, 1, 0, 0);
    assert!(r.is_ok());
    assert_eq!(b.memory[4], 23); // blue of palette[2]
    assert_eq!(b.memory[5], 22);
    assert_eq!(b.memory[6], 21);
    assert_eq!(b.memory[7], 55);
    // the other pixel is untouched
    assert_eq!(&b.memory[0..4], &[0, 0, 0, 0]);
}

#[test]
fn draw_sprite_maps_linear_index_row_major() {
    // A 4x2 sheet of 2x1 sprites: two sprites per row.  Sprite 3 is the
    // bottom-right pair (values 6, 7 -> but kept below the palette size).
    let bitmap = Bitmap { width: 4, height: 2, data: vec![0, 1, 2, 3, 4, 5, 0, 1] };
    let sheet = SpriteSheet::new(bitmap, 2, 1);
    assert_eq!(sheet.sprites_per_row, 2);
    let mut b = BackBuffer::new(2, 1);
    let pal = six_colors();
    // sprite 3: origin x = (3 % 2) * 2 = 2, y = (3 / 2) * 1 = 1 -> values [0, 1]
    b.draw_sprite(&pal, &sheet, 0, 0, 3).unwrap();
    assert_eq!(b.memory[0], 3); // blue of palette[0]
    assert_eq!(b.memory[4], 13); // blue of palette[1]
}

#[test]
fn draw_subsprite_takes_offsets() {
    let bitmap = Bitmap { width: 2, height: 2, data: vec![0, 1, 2, 3] };
    let sheet = SpriteSheet::new(bitmap, 2, 2);
    let mut b = BackBuffer::new(1, 1);
    let pal = six_colors();
    // one pixel at offset (1, 1) inside sprite 0: value 3
    b.draw_subsprite(&pal, &sheet, 0, 0, 0, 1, 1, 1, 1).unwrap();
    assert_eq!(b.memory[0], 33);
    assert_eq!(b.memory[1], 32);
    assert_eq!(b.memory[2], 31);
}

#[test]
fn out_of_range_rectangle_is_rejected_and_surface_kept() {
    let sheet = SpriteSheet::new(Bitmap { width: 1, height: 1, data: vec![2] }, 1, 1);
    let mut b = BackBuffer::new(2, 1);
    b.clear(c(10, 20, 30));
    let before = b.memory.clone();
    let pal = six_colors();
    assert_eq!(b.draw_sprite(&pal, &sheet, 2, 0, 0), Err(CompositeError::IndexOutOfRange));
    assert_eq!(b.draw_sprite(&pal, &sheet, -1, 0, 0), Err(CompositeError::IndexOutOfRange));
    assert_eq!(b.draw_sprite(&pal, &sheet, 0, 0, 1), Err(CompositeError::IndexOutOfRange));
    assert_eq!(b.draw_sprite(&pal, &sheet, 0, 0, -1), Err(CompositeError::IndexOutOfRange));
    assert_eq!(b.memory, before);
}

#[test]
fn palette_index_out_of_range_is_rejected_and_surface_kept() {
    let sheet = SpriteSheet::new(Bitmap { width: 1, height: 1, data: vec![6] }, 1, 1);
    let mut b = BackBuffer::new(1, 1);
    let before = b.memory.clone();
    let pal = six_colors();
    assert_eq!(b.draw_sprite(&pal, &sheet, 0, 0, 0), Err(CompositeError::IndexOutOfRange));
    assert_eq!(b.memory, before);
}

#[test]
fn draw_text_draws_glyphs_and_skips_spaces() {
    // A 2x1 font sheet of 1x1 glyphs: glyph 0 ('A') holds 1, glyph 1 ('B')
    // holds 2.
    let font = SpriteSheet::new(Bitmap { width: 2, height: 1, data: vec![1, 2] }, 1, 1);
    let pal = six_colors();
    let mut b = BackBuffer::new(3, 1);
    b.draw_text(&pal, &font, "A B", 0, 0);
    assert_eq!(b.memory[0], 13); // 'A' -> glyph 0 -> palette[1], blue first
    assert_eq!(&b.memory[4..7], &[0, 0, 0]); // space leaves its slot blank
    assert_eq!(b.memory[8], 23); // 'B' -> glyph 1 -> palette[2]
}

#[test]
fn draw_text_rejects_characters_below_the_font_range() {
    let font = SpriteSheet::new(Bitmap { width: 2, height: 1, data: vec![1, 2] }, 1, 1);
    let pal = six_colors();
    let mut b = BackBuffer::new(2, 1);
    // '@' is one code point below 'A': its slot stays blank, and the cursor
    // still advances so 'A' lands on the second pixel.
    b.draw_text(&pal, &font, "@A", 0, 0);
    assert_eq!(&b.memory[0..3], &[0, 0, 0]);
    assert_eq!(b.memory[4], 13);
}

#[test]
fn draw_text_clips_at_the_surface_edge() {
    let font = SpriteSheet::new(Bitmap { width: 2, height: 1, data: vec![1, 2] }, 1, 1);
    let pal = six_colors();
    let mut b = BackBuffer::new(1, 1);
    // The second glyph falls off the surface and is skipped, not written.
    b.draw_text(&pal, &font, "AB", 0, 0);
    assert_eq!(b.memory[0], 13);
}
