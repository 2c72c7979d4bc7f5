use input_display::palette::change_palette;
use input_display::palette::synthesize;
use input_display::palette::Color;

fn c(r: u8, g: u8, b: u8) -> Color {
    Color { r, g, b }
}

#[test]
fn synthesize_exact_six_entries() {
    let base = [c(10, 20, 30), c(40, 50, 60), c(70, 80, 90), c(100, 110, 120)];
    let out = synthesize(&base);
    assert_eq!(out.len(), 6);
    assert_eq!(out[0], c(10, 20, 30));
    assert_eq!(out[1], c(40, 50, 60));
    assert_eq!(out[2], c(70, 80, 90));
    assert_eq!(out[3], c(0, 0, 0));
    assert_eq!(out[4], c(100, 111, 120));
    assert_eq!(out[5], c(100, 110, 120));
}

#[test]
fn synthesize_nudges_only_green() {
    let base = [c(0, 0, 0), c(0, 0, 0), c(0, 0, 0), c(248, 248, 248)];
    let out = synthesize(&base);
    assert_eq!(out[4], c(248, 249, 248));
    assert_eq!(out[5], c(248, 248, 248));
}

#[test]
fn change_palette_selects_and_synthesizes() {
    let catalog = vec![
        [c(0, 0, 0), c(1, 1, 1), c(2, 2, 2), c(3, 3, 3)],
        [c(9, 9, 9), c(8, 8, 8), c(7, 7, 7), c(6, 5, 4)],
    ];
    let p = change_palette(&catalog, 1).unwrap();
    assert_eq!(p.len(), 6);
    assert_eq!(p[0], c(9, 9, 9));
    assert_eq!(p[3], c(0, 0, 0));
    assert_eq!(p[4], c(6, 6, 4));
    assert_eq!(p[5], c(6, 5, 4));
    assert!(change_palette(&catalog, 2).is_none());
}

#[test]
fn change_palette_asks_only_of_the_selected_entry() {
    // The second entry's background green channel is at the ceiling, but
    // selecting the first entry does not read it.
    let catalog = vec![
        [c(0, 0, 0), c(1, 1, 1), c(2, 2, 2), c(3, 4, 5)],
        [c(0, 0, 0), c(1, 1, 1), c(2, 2, 2), c(0, 255, 0)],
    ];
    let p = change_palette(&catalog, 0).unwrap();
    assert_eq!(p[4], c(3, 5, 5));
    // An out-of-range index reads no entry at all and selects nothing.
    assert!(change_palette(&catalog, 7).is_none());
}
