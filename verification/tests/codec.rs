use blurhash_batch::base83::{decode_int, ALPHABET};
use blurhash_batch::codec::{
    assemble, is_well_formed, pack_ac, pack_dc, quantize_ac, quantize_max, validate, AcLevels,
};
use blurhash_batch::grid::{ComponentGrid, EncodeError};
use blurhash_batch::pixels::{PixelBuffer, Rgb};

fn to_linear(channel: u8) -> f64 {
    let v = channel as f64 / 255.0;
    if v <= 0.04045 {
        v / 12.92
    } else {
        ((v + 0.055) / 1.055).powf(2.4)
    }
}

fn to_srgb(value: f64) -> u8 {
    let v = value.clamp(0.0, 1.0);
    let encoded = if v <= 0.0031308 { v * 12.92 } else { 1.055 * v.powf(1.0 / 2.4) - 0.055 };
    (encoded * 255.0).round() as u8
}

fn sign_pow(value: f64, exponent: f64) -> f64 {
    value.abs().powf(exponent).copysign(value)
}

fn project(pixels: &PixelBuffer, i: usize, j: usize) -> [f64; 3] {
    let (width, height) = (pixels.width(), pixels.height());
    let mut sum = [0.0f64; 3];
    for y in 0..height {
        for x in 0..width {
            let basis = (std::f64::consts::PI * i as f64 * x as f64 / width as f64).cos()
                * (std::f64::consts::PI * j as f64 * y as f64 / height as f64).cos();
            let colour = pixels.rgb_at(x, y).unwrap();
            sum[0] += basis * to_linear(colour.r);
            sum[1] += basis * to_linear(colour.g);
            sum[2] += basis * to_linear(colour.b);
        }
    }
    let normalisation = if i == 0 && j == 0 { 1.0 } else { 2.0 };
    let scale = normalisation / (width as f64 * height as f64);
    [sum[0] * scale, sum[1] * scale, sum[2] * scale]
}

fn encode(
    data: Vec<u8>,
    components_x: usize,
    components_y: usize,
    width: usize,
    height: usize,
) -> Result<String, EncodeError> {
    let grid = validate(components_x, components_y, width, height)?;
    let pixels = PixelBuffer::new(width, height, data).unwrap();
    let mut terms = Vec::new();
    for index in 0..grid.term_count() {
        let (i, j) = grid.term_at(index).unwrap();
        terms.push(project(&pixels, i, j));
    }
    let dc = Rgb { r: to_srgb(terms[0][0]), g: to_srgb(terms[0][1]), b: to_srgb(terms[0][2]) };
    let mut largest = 0.0f64;
    for term in &terms[1..] {
        for channel in term {
            largest = largest.max(channel.abs());
        }
    }
    let max_level = (largest * 166.0 - 0.5).floor() as i64;
    let scale = (quantize_max(max_level) + 1) as f64 / 166.0;
    let mut levels = Vec::new();
    for term in &terms[1..] {
        let level = |v: f64| (sign_pow(v / scale, 0.5) * 9.0 + 9.5).floor() as i64;
        levels.push(AcLevels { r: level(term[0]), g: level(term[1]), b: level(term[2]) });
    }
    Ok(assemble(grid, dc, max_level, &levels).unwrap())
}

fn uniform(width: usize, height: usize, colour: [u8; 3]) -> Vec<u8> {
    let mut data = Vec::new();
    for _ in 0..width * height {
        data.extend_from_slice(&[colour[0], colour[1], colour[2], 255]);
    }
    data
}

fn gradient(width: usize, height: usize) -> Vec<u8> {
    let mut data = Vec::new();
    for y in 0..height {
        for x in 0..width {
            data.push((x * 255 / width.max(1)) as u8);
            data.push((y * 255 / height.max(1)) as u8);
            data.push(((x + y) * 127 / (width + height).max(1)) as u8);
            data.push(255);
        }
    }
    data
}

#[test]
fn quantize_max_clamps_to_0_through_82() {
    assert_eq!(quantize_max(i64::MIN), 0);
    assert_eq!(quantize_max(-1), 0);
    assert_eq!(quantize_max(0), 0);
    assert_eq!(quantize_max(1), 1);
    assert_eq!(quantize_max(41), 41);
    assert_eq!(quantize_max(82), 82);
    assert_eq!(quantize_max(83), 82);
    assert_eq!(quantize_max(165), 82);
    assert_eq!(quantize_max(i64::MAX), 82);
}

#[test]
fn quantize_ac_clamps_to_0_through_18() {
    assert_eq!(quantize_ac(i64::MIN), 0);
    assert_eq!(quantize_ac(-1), 0);
    assert_eq!(quantize_ac(0), 0);
    assert_eq!(quantize_ac(9), 9);
    assert_eq!(quantize_ac(18), 18);
    assert_eq!(quantize_ac(19), 18);
    assert_eq!(quantize_ac(i64::MAX), 18);
}

#[test]
fn pack_dc_puts_red_high_and_blue_low() {
    assert_eq!(pack_dc(Rgb { r: 0, g: 0, b: 0 }), 0);
    assert_eq!(pack_dc(Rgb { r: 255, g: 255, b: 255 }), 0xFF_FFFF);
    assert_eq!(pack_dc(Rgb { r: 0x12, g: 0x34, b: 0x56 }), 0x12_3456);
    assert_eq!(pack_dc(Rgb { r: 1, g: 0, b: 0 }), 65536);
    assert_eq!(pack_dc(Rgb { r: 0, g: 1, b: 0 }), 256);
    assert_eq!(pack_dc(Rgb { r: 0, g: 0, b: 1 }), 1);
}

#[test]
fn pack_ac_weighs_red_361_green_19_blue_1() {
    assert_eq!(pack_ac(AcLevels { r: 0, g: 0, b: 0 }), 0);
    assert_eq!(pack_ac(AcLevels { r: 1, g: 0, b: 0 }), 361);
    assert_eq!(pack_ac(AcLevels { r: 0, g: 1, b: 0 }), 19);
    assert_eq!(pack_ac(AcLevels { r: 0, g: 0, b: 1 }), 1);
    assert_eq!(pack_ac(AcLevels { r: 9, g: 9, b: 9 }), 3429);
    assert_eq!(pack_ac(AcLevels { r: 18, g: 18, b: 18 }), 6858);
    assert_eq!(pack_ac(AcLevels { r: 22, g: -3, b: 7 }), 18 * 361 + 7);
}

#[test]
fn validate_refuses_a_grid_side_of_0_or_10() {
    assert_eq!(validate(0, 3, 32, 32), Err(EncodeError::InvalidGrid));
    assert_eq!(validate(10, 3, 32, 32), Err(EncodeError::InvalidGrid));
    assert_eq!(validate(4, 0, 32, 32), Err(EncodeError::InvalidGrid));
    assert_eq!(validate(4, 10, 32, 32), Err(EncodeError::InvalidGrid));
    assert_eq!(encode(uniform(2, 2, [1, 2, 3]), 0, 3, 2, 2), Err(EncodeError::InvalidGrid));
    assert_eq!(encode(uniform(2, 2, [1, 2, 3]), 10, 3, 2, 2), Err(EncodeError::InvalidGrid));
}

#[test]
fn validate_refuses_an_image_without_pixels() {
    assert_eq!(validate(4, 3, 0, 32), Err(EncodeError::EmptyImage));
    assert_eq!(validate(4, 3, 32, 0), Err(EncodeError::EmptyImage));
    assert_eq!(validate(4, 3, 0, 0), Err(EncodeError::EmptyImage));
    assert_eq!(encode(Vec::new(), 4, 3, 0, 7), Err(EncodeError::EmptyImage));
}

#[test]
fn validate_names_the_grid_first_where_both_are_wrong() {
    assert_eq!(validate(0, 3, 0, 0), Err(EncodeError::InvalidGrid));
    assert_eq!(validate(4, 12, 5, 0), Err(EncodeError::InvalidGrid));
}

#[test]
fn validate_takes_every_grid_from_1_to_9() {
    for x in 1..=9usize {
        for y in 1..=9usize {
            let grid = validate(x, y, 1, 1).unwrap();
            assert_eq!((grid.components_x(), grid.components_y()), (x, y));
        }
    }
}

#[test]
fn assemble_lays_out_flag_scale_dc_and_ac_terms() {
    let grid = ComponentGrid::new(2, 1).unwrap();
    let text = assemble(
        grid,
        Rgb { r: 188, g: 188, b: 188 },
        165,
        &vec![AcLevels { r: 22, g: 22, b: 22 }],
    )
    .unwrap();
    assert_eq!(text, "1~Lqe9~q");
    let grid = ComponentGrid::new(1, 2).unwrap();
    let text =
        assemble(grid, Rgb { r: 255, g: 255, b: 255 }, 3, &vec![AcLevels { r: 9, g: 9, b: 9 }])
            .unwrap();
    assert_eq!(text, "93TSUAfQ");
}

#[test]
fn assemble_wants_one_entry_for_each_ac_term() {
    let grid = ComponentGrid::new(2, 2).unwrap();
    let level = AcLevels { r: 9, g: 9, b: 9 };
    let dc = Rgb { r: 1, g: 2, b: 3 };
    assert_eq!(assemble(grid, dc, 0, &vec![]), None);
    assert_eq!(assemble(grid, dc, 0, &vec![level; 2]), None);
    assert_eq!(assemble(grid, dc, 0, &vec![level; 4]), None);
    assert!(assemble(grid, dc, 0, &vec![level; 3]).is_some());
}

#[test]
fn assemble_gives_the_same_text_for_the_same_levels() {
    let grid = ComponentGrid::new(3, 2).unwrap();
    let levels: Vec<AcLevels> =
        (0..5).map(|k| AcLevels { r: k, g: 18 - k, b: 2 * k }).collect();
    let first = assemble(grid, Rgb { r: 10, g: 20, b: 30 }, 17, &levels).unwrap();
    let second = assemble(grid, Rgb { r: 10, g: 20, b: 30 }, 17, &levels.clone()).unwrap();
    assert_eq!(first, second);
    assert_eq!(first.as_bytes(), second.as_bytes());
}

#[test]
fn assemble_ignores_the_scale_of_a_grid_without_ac_terms() {
    let grid = ComponentGrid::new(1, 1).unwrap();
    for level in [i64::MIN, -1, 0, 40, 82, i64::MAX] {
        let text = assemble(grid, Rgb { r: 0, g: 0, b: 0 }, level, &vec![]).unwrap();
        assert_eq!(text, "000000");
    }
}

#[test]
fn encode_of_one_pixel_with_a_grid_of_one_term() {
    let text = encode(vec![255, 255, 255, 255], 1, 1, 1, 1).unwrap();
    assert_eq!(text, "00TSUA");
    assert_eq!(text.len(), 6);
    assert!(is_well_formed(&text));
    let text = encode(vec![0, 0, 0, 255], 1, 1, 1, 1).unwrap();
    assert_eq!(text, "000000");
    let text = encode(vec![0x12, 0x34, 0x56, 0], 1, 1, 1, 1).unwrap();
    assert_eq!(decode_int(&text[2..6]), Some(0x12_3456));
}

#[test]
fn encode_of_a_white_and_a_black_pixel() {
    let text = encode(vec![255, 255, 255, 255, 0, 0, 0, 255], 2, 1, 2, 1).unwrap();
    assert_eq!(text, "1~Lqe9~q");
}

#[test]
fn encode_has_the_length_of_its_grid_and_symbols_of_the_alphabet() {
    for x in 1..=9usize {
        for y in 1..=9usize {
            let text = encode(gradient(7, 5), x, y, 7, 5).unwrap();
            assert_eq!(text.len(), 6 + 2 * (x * y - 1));
            assert!(text.chars().all(|c| ALPHABET.contains(c)));
            assert!(is_well_formed(&text));
            assert_eq!(decode_int(&text[0..1]), Some(((x - 1) + (y - 1) * 9) as u64));
        }
    }
}

#[test]
fn encode_twice_gives_the_same_bytes() {
    let first = encode(gradient(9, 6), 4, 3, 9, 6).unwrap();
    let second = encode(gradient(9, 6), 4, 3, 9, 6).unwrap();
    assert_eq!(first.as_bytes(), second.as_bytes());
}

#[test]
fn encode_of_a_black_image_has_a_scale_of_zero() {
    let text = encode(uniform(8, 8, [0, 0, 0]), 4, 3, 8, 8).unwrap();
    assert_eq!(&text[1..2], "0");
    assert_eq!(&text[0..6], "L00000");
}

#[test]
fn encode_of_one_colour_with_one_term_has_a_scale_of_zero() {
    for colour in [[0, 0, 0], [255, 255, 255], [200, 10, 99]] {
        let text = encode(uniform(5, 4, colour), 1, 1, 5, 4).unwrap();
        assert_eq!(&text[1..2], "0");
        assert_eq!(
            decode_int(&text[2..6]),
            Some(pack_dc(Rgb { r: colour[0], g: colour[1], b: colour[2] }))
        );
    }
}

#[test]
fn encode_of_one_colour_on_a_large_image_has_a_scale_of_zero() {
    let text = encode(uniform(400, 400, [255, 255, 255]), 4, 3, 400, 400).unwrap();
    assert_eq!(&text[0..6], "L0TSUA");
}

#[test]
fn encode_of_one_colour_on_a_small_image_scales_its_odd_terms() {
    // The cosines of an odd term add up to one over a row, not to zero: the
    // term in column 1 of a white image 32 wide is 2 / 32, and the level of
    // the scale is the floor of 0.0625 * 166 - 0.5.
    let text = encode(uniform(32, 32, [255, 255, 255]), 4, 3, 32, 32).unwrap();
    assert_eq!(&text[1..2], "9");
    assert_eq!(&text[2..6], "TSUA");
}

#[test]
fn encode_does_not_read_alpha() {
    let mut opaque = gradient(6, 4);
    let mut clear = opaque.clone();
    for texel in 0..24 {
        opaque[4 * texel + 3] = 255;
        clear[4 * texel + 3] = 0;
    }
    assert_eq!(encode(opaque, 3, 3, 6, 4), encode(clear, 3, 3, 6, 4));
}

#[test]
fn is_well_formed_takes_what_assemble_makes() {
    let grid = ComponentGrid::new(4, 3).unwrap();
    let levels = vec![AcLevels { r: 3, g: 18, b: 0 }; 11];
    let text = assemble(grid, Rgb { r: 200, g: 100, b: 50 }, 82, &levels).unwrap();
    assert_eq!(text.len(), 28);
    assert!(is_well_formed(&text));
}

#[test]
fn is_well_formed_refuses_a_wrong_length() {
    assert!(!is_well_formed(""));
    assert!(!is_well_formed("00000"));
    assert!(is_well_formed("000000"));
    assert!(!is_well_formed("0000000"));
    assert!(!is_well_formed("00000000"));
    assert!(!is_well_formed("100000"));
    assert!(is_well_formed("10000000"));
    assert!(!is_well_formed("1000000000"));
}

#[test]
fn is_well_formed_refuses_what_is_outside_the_alphabet() {
    assert!(!is_well_formed("00000/"));
    assert!(!is_well_formed("0 0000"));
    assert!(!is_well_formed("/00000"));
    assert!(!is_well_formed("0000\u{e9}"));
    assert!(!is_well_formed("100000 0"));
}

#[test]
fn is_well_formed_refuses_a_flag_that_names_no_grid() {
    let mut text = String::from("}");
    text.push_str(&"0".repeat(4 + 2 * 10 * 9 - 1));
    assert!(!is_well_formed(&text));
    let mut text = String::from("~");
    text.push_str(&"0".repeat(4 + 2 * 10 * 10 - 1));
    assert!(!is_well_formed(&text));
    let mut text = String::from("|");
    text.push_str(&"0".repeat(165));
    assert!(is_well_formed(&text));
}

#[test]
fn is_well_formed_refuses_values_out_of_range() {
    assert!(is_well_formed("00TSUA"));
    assert!(!is_well_formed("00TSUB"));
    assert!(!is_well_formed("00~~~~"));
    assert!(is_well_formed("0~TSUA"));
    assert!(is_well_formed("1~Lqe9~q"));
    assert!(!is_well_formed("1~Lqe9~r"));
    assert!(!is_well_formed("1~Lqe9~~"));
}
