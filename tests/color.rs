use live_grid::color::{
    hex_string, quantize, rgb_to_rounded_hex_color_string, round_to_nearest, to_hex_color, Rgb,
    ROUNDING_STEP,
};

#[test]
fn rounds_to_nearest_ten() {
    assert_eq!(round_to_nearest(0, 10), 0);
    assert_eq!(round_to_nearest(4, 10), 0);
    assert_eq!(round_to_nearest(5, 10), 10);
    assert_eq!(round_to_nearest(3, 10), 0);
    assert_eq!(round_to_nearest(245, 10), 250);
    assert_eq!(round_to_nearest(254, 10), 250);
}

#[test]
fn rounding_clamps_at_255() {
    assert_eq!(round_to_nearest(255, 10), 255);
    assert_eq!(round_to_nearest(200, 100), 200);
    assert_eq!(round_to_nearest(255, 100), 255);
}

#[test]
fn quantize_is_idempotent_on_samples() {
    for v in [0u8, 1, 4, 5, 9, 14, 15, 127, 128, 244, 245, 250, 254, 255] {
        let c = Rgb { r: v, g: v.wrapping_add(3), b: 255 - v };
        let q = quantize(c);
        assert_eq!(quantize(q), q);
    }
    assert_eq!(ROUNDING_STEP, 10);
}

#[test]
fn hex_string_is_upper_case_two_digits() {
    assert_eq!(hex_string(Rgb { r: 1, g: 171, b: 255 }), "#01ABFF");
    assert_eq!(hex_string(Rgb { r: 0, g: 0, b: 0 }), "#000000");
}

#[test]
fn rounded_hex_of_noisy_red() {
    assert_eq!(rgb_to_rounded_hex_color_string([255, 3, 2]), "#FF0000");
    assert_eq!(rgb_to_rounded_hex_color_string([16, 171, 5]), "#14AA0A");
}

#[test]
fn to_hex_color_matches_rounded_hex() {
    assert_eq!(to_hex_color([16, 171, 5]), "#14AA0A");
    assert_eq!(to_hex_color([99, 100, 101]), rgb_to_rounded_hex_color_string([99, 100, 101]));
}
