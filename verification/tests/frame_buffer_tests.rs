use libsurfer::color::Rgb;
use libsurfer::frame_buffer::{
    bits_to_u16_padded, decode_grayscale_pixels, decode_rgb_pixels, frame_buffer_bits,
    scale_to_u8, scope_array_index, variable_array_index, VariableValue,
};
use libsurfer::wave_refs::{ScopeRef, VarId, VariableRef};

#[test]
fn frame_buffer_bits_pads_to_word_length() {
    let bits = frame_buffer_bits(&VariableValue::BigUint("5".to_string()), 5);
    assert_eq!(bits, vec![false, false, true, false, true]);
}

#[test]
fn frame_buffer_bits_truncates_to_word_length() {
    let bits = frame_buffer_bits(&VariableValue::String("101101".to_string()), 4);
    assert_eq!(bits, vec![true, true, false, true]);
}

#[test]
fn bits_to_u16_padded_reads_and_zero_pads() {
    let bits = vec![true, false, true];
    assert_eq!(bits_to_u16_padded(&bits, 0, 3), 0b101);
    assert_eq!(bits_to_u16_padded(&bits, 1, 4), 0b0100);
}

#[test]
fn scale_to_u8_scales_full_range() {
    assert_eq!(scale_to_u8(0, 1), 0);
    assert_eq!(scale_to_u8(1, 1), 255);
    assert_eq!(scale_to_u8(7, 3), 255);
    assert_eq!(scale_to_u8(4, 3), 145);
}

#[test]
fn decode_grayscale_pixels_uses_bit_groups() {
    let bits = vec![false, false, true, true];
    let pixels = decode_grayscale_pixels(&bits, 2);
    assert_eq!(pixels.len(), 2);
    assert_eq!(pixels[0], Rgb::from_rgb(0, 0, 0));
    assert_eq!(pixels[1], Rgb::from_rgb(255, 255, 255));
}

#[test]
fn decode_rgb_pixels_supports_different_channel_widths() {
    let bits = vec![
        true, false, false, true, true, false, // R=10 G=01 B=10 with r=2,g=2,b=2
    ];
    let pixels = decode_rgb_pixels(&bits, 2, 2, 2);
    assert_eq!(pixels.len(), 1);
    assert_eq!(pixels[0], Rgb::from_rgb(170, 85, 170));
}

#[test]
fn variable_array_index_parses_bracketed_name() {
    let var_ref = VariableRef::new(ScopeRef::empty(), "[2]".to_string());
    assert_eq!(variable_array_index(&var_ref), 2);
}

#[test]
fn variable_array_index_parses_plain_numeric_name() {
    let var_ref = VariableRef::new(ScopeRef::empty(), "7".to_string());
    assert_eq!(variable_array_index(&var_ref), 7);
}

#[test]
fn variable_array_index_prefers_explicit_index() {
    let var_ref = VariableRef::new_with_id_and_index(
        ScopeRef::empty(),
        "[2]".to_string(),
        Default::default(),
        Some(9),
    );
    assert_eq!(variable_array_index(&var_ref), 9);
}

#[test]
fn variable_array_index_falls_back_to_max_for_non_numeric_names() {
    let var_ref = VariableRef::new(ScopeRef::empty(), "data".to_string());
    assert_eq!(variable_array_index(&var_ref), i64::MAX);
}

#[test]
fn scope_array_index_reads_last_name_of_path() {
    let scope = ScopeRef::from_strs(vec!["top".to_string(), "[12]".to_string()]);
    assert_eq!(scope_array_index(&scope), 12);
    let scope = ScopeRef::from_strs(vec!["top".to_string(), "-3".to_string()]);
    assert_eq!(scope_array_index(&scope), -3);
    assert_eq!(scope_array_index(&ScopeRef::empty()), i64::MAX);
    let scope = ScopeRef::from_strs(vec!["[x]".to_string()]);
    assert_eq!(scope_array_index(&scope), i64::MAX);
}

#[test]
fn frame_buffer_bits_reads_only_ones_as_set() {
    let bits = frame_buffer_bits(&VariableValue::String("1x0z".to_string()), 4);
    assert_eq!(bits, vec![true, false, false, false]);
    let bits = frame_buffer_bits(&VariableValue::BigUint("0".to_string()), 3);
    assert_eq!(bits, vec![false, false, false]);
    let id = VarId(3);
    assert_eq!(id, VarId(3));
}

#[test]
fn decode_pixels_pad_a_short_last_group_with_zeros() {
    let pixels = decode_grayscale_pixels(&[true, true, true], 2);
    assert_eq!(pixels, vec![Rgb::from_rgb(255, 255, 255), Rgb::from_rgb(170, 170, 170)]);
    let pixels = decode_grayscale_pixels(&[true, false], 0);
    assert_eq!(pixels.len(), 2);
    assert_eq!(scale_to_u8(0, 0), 0);
}

#[test]
fn frame_buffer_bits_of_a_number_wider_than_any_machine_word() {
    // 2^130 + 5
    let bits = frame_buffer_bits(
        &VariableValue::BigUint("1361129467683753853853498429727072845829".to_string()),
        131,
    );
    let mut expected = vec![false; 131];
    expected[0] = true;
    expected[128] = true;
    expected[130] = true;
    assert_eq!(bits, expected);
}
