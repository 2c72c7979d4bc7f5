use input_display::bmp::bmp_load;
use input_display::bmp::BMPError;

/// Builds a byte stream in the supported format: `B`, `M`, the fixed
/// little-endian header, then one 4-byte pixel per entry of `pixels`
/// (first byte the value, the rest zero), rows in file order (bottom-up).
fn make_bmp(width: i32, height: i32, pixels: &[u8]) -> Vec<u8> {
    let mut b: Vec<u8> = Vec::new();
    b.push(b'B');
    b.push(b'M');
    let file_size: u32 = 30 + 4 * pixels.len() as u32;
    b.extend_from_slice(&file_size.to_le_bytes());
    b.extend_from_slice(&0u32.to_le_bytes()); // reserved
    b.extend_from_slice(&30u32.to_le_bytes()); // pixel data offset
    b.extend_from_slice(&40u32.to_le_bytes()); // header size
    b.extend_from_slice(&width.to_le_bytes());
    b.extend_from_slice(&height.to_le_bytes());
    b.extend_from_slice(&1u16.to_le_bytes()); // planes
    b.extend_from_slice(&32u16.to_le_bytes()); // bits per pixel
    for p in pixels {
        b.push(*p);
        b.push(0);
        b.push(0);
        b.push(0);
    }
    b
}

#[test]
fn decode_dimensions_and_index_range() {
    let data = make_bmp(3, 2, &[0, 51, 102, 153, 204, 255]);
    let bm = bmp_load(&data).unwrap_or_else(|_| panic!("decode failed"));
    assert_eq!(bm.width, 3);
    assert_eq!(bm.height, 2);
    assert_eq!(bm.data.len(), 6);
    for v in &bm.data {
        assert!(*v < 5);
    }
}

#[test]
fn decode_two_blue_pixels_clamps_to_four() {
    let data = make_bmp(2, 1, &[255, 255]);
    let bm = bmp_load(&data).unwrap_or_else(|_| panic!("decode failed"));
    assert_eq!(bm.width, 2);
    assert_eq!(bm.height, 1);
    assert_eq!(bm.data, vec![4, 4]);
}

#[test]
fn decode_flips_rows_bottom_up() {
    // File row 0 (the visually bottom row) holds 0, file row 1 holds 102.
    let data = make_bmp(1, 2, &[0, 102]);
    let bm = bmp_load(&data).unwrap_or_else(|_| panic!("decode failed"));
    // The decoded bitmap is top-to-bottom: 102 / 51 = 2 first, then 0.
    assert_eq!(bm.data, vec![2, 0]);
}

#[test]
fn decode_quantization_boundaries() {
    let data = make_bmp(8, 1, &[0, 50, 51, 101, 102, 153, 204, 254]);
    let bm = bmp_load(&data).unwrap_or_else(|_| panic!("decode failed"));
    assert_eq!(bm.data, vec![0, 0, 1, 1, 2, 3, 4, 4]);
}

#[test]
fn wrong_signature_fails_for_any_length() {
    assert!(matches!(bmp_load(&[b'B', b'N']), Err(BMPError::WrongSignature)));
    assert!(matches!(bmp_load(&[0, 0]), Err(BMPError::WrongSignature)));
    assert!(matches!(bmp_load(&[b'M', b'B', 7]), Err(BMPError::WrongSignature)));
    let mut data = make_bmp(2, 1, &[255, 255]);
    data[0] = b'X';
    assert!(matches!(bmp_load(&data), Err(BMPError::WrongSignature)));
}

#[test]
fn empty_or_one_byte_fails_io() {
    assert!(matches!(bmp_load(&[]), Err(BMPError::IOError)));
    assert!(matches!(bmp_load(&[b'B']), Err(BMPError::IOError)));
}

#[test]
fn short_header_fails_io() {
    let data = make_bmp(1, 1, &[0]);
    assert!(matches!(bmp_load(&data[..20]), Err(BMPError::IOError)));
}

#[test]
fn truncated_pixel_data_fails_io() {
    let data = make_bmp(2, 2, &[0, 0, 0, 0]);
    assert!(matches!(bmp_load(&data[..data.len() - 1]), Err(BMPError::IOError)));
}

#[test]
fn negative_dimensions_fail_io() {
    let data = make_bmp(-1, 1, &[0]);
    assert!(matches!(bmp_load(&data), Err(BMPError::IOError)));
}

#[test]
fn unsupported_depth_fails() {
    let mut data = make_bmp(1, 1, &[0]);
    data[28] = 24;
    data[29] = 0;
    assert!(matches!(bmp_load(&data), Err(BMPError::UnsupportedBitsPerPixel)));
}
