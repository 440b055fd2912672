use libsurfer::color::Rgb;
use libsurfer::drawing_canvas::DinotraceDrawingStyle;
use libsurfer::frame_buffer::VariableValue;
use libsurfer::svg_export::color_hex;
use libsurfer::transactions::calculate_rows_of_stream;

fn times(pairs: &[(u64, u64)]) -> Vec<(String, String)> {
    pairs.iter().map(|(a, b)| (a.to_string(), b.to_string())).collect()
}

#[test]
fn transactions_take_the_first_free_row() {
    let mut rows = times(&[(0, 0)]);
    calculate_rows_of_stream(&times(&[(0, 10), (5, 15), (10, 20), (12, 13), (30, 40)]), &mut rows);
    // (0,10) row 0; (5,15) row 1; (10,20) row 0 again; (12,13) row 2; (30,40) row 0
    assert_eq!(rows, times(&[(30, 40), (5, 15), (12, 13)]));
}

#[test]
fn no_transactions_leave_the_rows_alone() {
    let mut rows = times(&[(1, 4), (2, 9)]);
    calculate_rows_of_stream(&[], &mut rows);
    assert_eq!(rows, times(&[(1, 4), (2, 9)]));
    calculate_rows_of_stream(&times(&[(3, 5)]), &mut rows);
    assert_eq!(rows, times(&[(1, 4), (2, 9), (3, 5)]));
}

#[test]
fn transaction_times_are_compared_as_numbers_of_any_size() {
    // 2^130 ends after 99 starts, even though its text sorts before "99".
    let big = "1361129467683753853853498429727072845824".to_string();
    let mut rows = vec![("0".to_string(), big.clone())];
    calculate_rows_of_stream(&[("99".to_string(), "100".to_string())], &mut rows);
    assert_eq!(
        rows,
        vec![("0".to_string(), big.clone()), ("99".to_string(), "100".to_string())]
    );
    // A transaction that starts at 2^130 finds the first row free.
    calculate_rows_of_stream(&[(big.clone(), big.clone())], &mut rows);
    assert_eq!(rows[0], (big.clone(), big));
}

#[test]
fn colors_are_written_as_hex_for_svg() {
    assert_eq!(color_hex(Rgb::from_rgb(0xa7, 0xe4, 0x7e)), "#a7e47e");
    assert_eq!(color_hex(Rgb::from_rgb(0, 15, 255)), "#000fff");
}

#[test]
fn dinotrace_style_follows_the_bits_of_the_value() {
    assert_eq!(
        DinotraceDrawingStyle::from_value(&VariableValue::BigUint("0".to_string()), Some(4)),
        DinotraceDrawingStyle::AllZeros
    );
    assert_eq!(
        DinotraceDrawingStyle::from_value(&VariableValue::BigUint("15".to_string()), Some(4)),
        DinotraceDrawingStyle::AllOnes
    );
    assert_eq!(
        DinotraceDrawingStyle::from_value(&VariableValue::BigUint("11".to_string()), Some(4)),
        DinotraceDrawingStyle::Normal
    );
    assert_eq!(
        DinotraceDrawingStyle::from_value(&VariableValue::BigUint("15".to_string()), None),
        DinotraceDrawingStyle::Normal
    );
    assert_eq!(
        DinotraceDrawingStyle::from_value(&VariableValue::String("1111".to_string()), Some(4)),
        DinotraceDrawingStyle::Normal
    );
}

#[test]
fn dinotrace_style_reads_numbers_wider_than_any_machine_word() {
    // 2^130 - 1: one hundred and thirty set bits.
    let all_ones = "1361129467683753853853498429727072845823".to_string();
    assert_eq!(
        DinotraceDrawingStyle::from_value(&VariableValue::BigUint(all_ones.clone()), Some(130)),
        DinotraceDrawingStyle::AllOnes
    );
    assert_eq!(
        DinotraceDrawingStyle::from_value(&VariableValue::BigUint(all_ones), Some(129)),
        DinotraceDrawingStyle::Normal
    );
}

#[test]
fn no_rows_and_no_transactions_is_accepted() {
    let mut rows: Vec<(String, String)> = vec![];
    calculate_rows_of_stream(&[], &mut rows);
    assert!(rows.is_empty());
}
