use palettize::color::{distance, Color};
use palettize::engine::{quantize, quantize_image, Mode};
use palettize::image_buffer::ImageBuffer;
use palettize::palette::{parse_hex_color, parse_palette, Palette, PaletteError};

fn c(r: u8, g: u8, b: u8) -> Color {
    Color { r, g, b }
}

fn black_white_palette() -> Palette {
    Palette::new(vec![c(0, 0, 0), c(255, 255, 255)])
}

fn image_3x2() -> ImageBuffer {
    ImageBuffer::from_pixels(
        3,
        2,
        vec![
            c(10, 10, 10),
            c(250, 250, 250),
            c(127, 127, 127),
            c(128, 128, 128),
            c(0, 255, 0),
            c(200, 10, 60),
        ],
    )
    .unwrap()
}

#[test]
fn distance_is_sum_of_channel_differences() {
    assert_eq!(distance(c(10, 10, 10), c(0, 0, 0)), 30);
    assert_eq!(distance(c(10, 10, 10), c(255, 255, 255)), 735);
    assert_eq!(distance(c(127, 127, 127), c(0, 0, 0)), 381);
    assert_eq!(distance(c(127, 127, 127), c(255, 255, 255)), 384);
    assert_eq!(distance(c(3, 200, 40), c(7, 100, 90)), 4 + 100 + 50);
    assert_eq!(distance(c(5, 5, 5), c(5, 5, 5)), 0);
}

#[test]
fn distance_is_symmetric() {
    assert_eq!(
        distance(c(1, 200, 30), c(90, 4, 230)),
        distance(c(90, 4, 230), c(1, 200, 30))
    );
}

#[test]
fn quantize_dark_pixel_goes_to_black() {
    let pal = black_white_palette();
    assert_eq!(quantize(c(10, 10, 10), &pal), c(0, 0, 0));
}

#[test]
fn quantize_middle_gray_goes_to_black() {
    // 381 against black, 384 against white: black wins by arithmetic, not by tie.
    let pal = black_white_palette();
    assert_eq!(quantize(c(127, 127, 127), &pal), c(0, 0, 0));
}

#[test]
fn quantize_light_pixel_goes_to_white() {
    let pal = black_white_palette();
    assert_eq!(quantize(c(200, 220, 210), &pal), c(255, 255, 255));
}

#[test]
fn quantize_is_identity_on_palette_entries() {
    let pal = Palette::new(vec![c(0, 0, 0), c(255, 255, 255), c(10, 200, 30), c(90, 90, 90)]);
    for color in &pal.colors {
        assert_eq!(quantize(*color, &pal), *color);
    }
}

#[test]
fn quantize_breaks_ties_toward_earliest_entry() {
    // Both entries are at distance 30 from the probe; the first one wins.
    let pal = Palette::new(vec![c(0, 0, 0), c(20, 20, 20)]);
    assert_eq!(quantize(c(10, 10, 10), &pal), c(0, 0, 0));
    // Same palette reversed: again the first entry wins.
    let rev = Palette::new(vec![c(20, 20, 20), c(0, 0, 0)]);
    assert_eq!(quantize(c(10, 10, 10), &rev), c(20, 20, 20));
    // Repeated calls agree.
    assert_eq!(quantize(c(10, 10, 10), &pal), quantize(c(10, 10, 10), &pal));
}

#[test]
fn sequential_and_parallel_agree() {
    let pal = Palette::new(vec![c(0, 0, 0), c(255, 255, 255), c(255, 0, 0), c(0, 255, 0)]);
    let img = image_3x2();
    let seq = quantize_image(&img, &pal, Mode::Sequential).unwrap();
    let par = quantize_image(&img, &pal, Mode::Parallel).unwrap();
    assert_eq!(seq.width, par.width);
    assert_eq!(seq.height, par.height);
    assert_eq!(seq.pixels, par.pixels);
}

#[test]
fn output_pixels_are_palette_members() {
    let pal = Palette::new(vec![c(0, 0, 0), c(255, 255, 255), c(255, 0, 0)]);
    for mode in [Mode::Sequential, Mode::Parallel] {
        let out = quantize_image(&image_3x2(), &pal, mode).unwrap();
        for p in &out.pixels {
            assert!(pal.colors.contains(p));
        }
    }
}

#[test]
fn output_dimensions_match_input() {
    let pal = black_white_palette();
    let img = image_3x2();
    for mode in [Mode::Sequential, Mode::Parallel] {
        let out = quantize_image(&img, &pal, mode).unwrap();
        assert_eq!(out.width, img.width);
        assert_eq!(out.height, img.height);
        assert_eq!(out.pixels.len(), img.pixels.len());
    }
}

#[test]
fn parallel_quantization_rewrites_pixels() {
    // Every input pixel differs from its output, so an engine that handed the
    // input back unchanged would fail here.
    let pal = Palette::new(vec![c(0, 0, 0), c(255, 255, 255)]);
    let img = image_3x2();
    let out = quantize_image(&img, &pal, Mode::Parallel).unwrap();
    let expected = vec![
        c(0, 0, 0),
        c(255, 255, 255),
        c(0, 0, 0),
        c(255, 255, 255),
        c(0, 0, 0),
        c(0, 0, 0),
    ];
    assert_eq!(out.pixels, expected);
}

#[test]
fn empty_palette_is_rejected_before_any_work() {
    let pal = Palette::new(vec![]);
    let img = image_3x2();
    for mode in [Mode::Sequential, Mode::Parallel] {
        match quantize_image(&img, &pal, mode) {
            Err(PaletteError::EmptyPalette) => {}
            Err(_) => panic!("wrong error for an empty palette"),
            Ok(_) => panic!("no output may be produced for an empty palette"),
        }
    }
}

#[test]
fn parse_hex_color_reads_both_digit_cases() {
    // Would fail if the hex decoding handed its input back unchanged.
    assert_eq!(parse_hex_color(b"#0a0BfC"), Ok(c(10, 11, 252)));
    assert_eq!(parse_hex_color(b"#000000"), Ok(c(0, 0, 0)));
    assert_eq!(parse_hex_color(b"#FFFFFF"), Ok(c(255, 255, 255)));
    assert_eq!(parse_hex_color(b"#12345f"), Ok(c(0x12, 0x34, 0x5f)));
}

#[test]
fn parse_hex_color_rejects_missing_hash() {
    assert_eq!(
        parse_hex_color(b"00FF00"),
        Err(PaletteError::MalformedPaletteEntry)
    );
}

#[test]
fn parse_hex_color_rejects_bad_lines() {
    assert_eq!(parse_hex_color(b""), Err(PaletteError::MalformedPaletteEntry));
    assert_eq!(parse_hex_color(b"#12345"), Err(PaletteError::MalformedPaletteEntry));
    assert_eq!(parse_hex_color(b"#1234567"), Err(PaletteError::MalformedPaletteEntry));
    assert_eq!(parse_hex_color(b"#00GG00"), Err(PaletteError::MalformedPaletteEntry));
    assert_eq!(parse_hex_color(b"0#00F00"), Err(PaletteError::MalformedPaletteEntry));
}

#[test]
fn parse_palette_preserves_line_order() {
    let lines: Vec<Vec<u8>> = vec![
        b"#000000".to_vec(),
        b"#FFFFFF".to_vec(),
        b"#1a2B3c".to_vec(),
    ];
    let pal = parse_palette(&lines).unwrap();
    assert_eq!(
        pal.colors,
        vec![c(0, 0, 0), c(255, 255, 255), c(0x1a, 0x2b, 0x3c)]
    );
}

#[test]
fn parse_palette_rejects_empty_source() {
    let lines: Vec<Vec<u8>> = vec![];
    match parse_palette(&lines) {
        Err(PaletteError::EmptyPalette) => {}
        _ => panic!("an empty source must yield EmptyPalette"),
    }
}

#[test]
fn parse_palette_aborts_on_malformed_line() {
    let lines: Vec<Vec<u8>> = vec![b"#000000".to_vec(), b"00FF00".to_vec()];
    match parse_palette(&lines) {
        Err(PaletteError::MalformedPaletteEntry) => {}
        _ => panic!("a malformed line must abort loading"),
    }
}

#[test]
fn image_buffer_from_pixels_checks_dimensions() {
    assert!(ImageBuffer::from_pixels(2, 2, vec![c(0, 0, 0); 4]).is_some());
    assert!(ImageBuffer::from_pixels(2, 2, vec![c(0, 0, 0); 3]).is_none());
    assert!(ImageBuffer::from_pixels(0, 5, vec![]).is_some());
}

#[test]
fn image_buffer_byte_round_trip() {
    let bytes: Vec<u8> = vec![1, 2, 3, 4, 5, 6, 7, 8, 9, 10, 11, 12];
    let buf = ImageBuffer::from_bytes(2, 2, &bytes).unwrap();
    assert_eq!(buf.pixels, vec![c(1, 2, 3), c(4, 5, 6), c(7, 8, 9), c(10, 11, 12)]);
    assert_eq!(buf.to_bytes(), bytes);
    assert!(ImageBuffer::from_bytes(2, 2, &vec![0u8; 11]).is_none());
}

#[test]
fn image_buffer_get_is_row_major() {
    let buf = image_3x2();
    assert_eq!(buf.get(0, 0), c(10, 10, 10));
    assert_eq!(buf.get(2, 0), c(127, 127, 127));
    assert_eq!(buf.get(0, 1), c(128, 128, 128));
    assert_eq!(buf.get(2, 1), c(200, 10, 60));
}
