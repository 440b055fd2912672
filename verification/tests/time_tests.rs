use libsurfer::time::{
    find_auto_scale, format_locale, format_si, strip_trailing_zeros_and_period, time_string,
    LocaleFormatCache, TimeFormat, TimeScale, TimeStringFormatting, TimeUnit,
};

fn cache() -> LocaleFormatCache {
    LocaleFormatCache {
        grouping: vec![3, 3],
        thousands_sep: ",".to_string(),
        decimal_point: ".".to_string(),
    }
}

fn ts(unit: TimeUnit, multiplier: Option<u32>) -> TimeScale {
    TimeScale { unit, multiplier }
}

#[test]
fn print_time_standard() {
    let c = cache();
    assert_eq!(
        time_string("103", &ts(TimeUnit::FemtoSeconds, Some(1)), &TimeUnit::FemtoSeconds, &TimeFormat::default(), &c),
        "103 fs"
    );
    assert_eq!(
        time_string("2200", &ts(TimeUnit::MicroSeconds, Some(1)), &TimeUnit::MicroSeconds, &TimeFormat::default(), &c),
        "2200 μs"
    );
    assert_eq!(
        time_string("2200", &ts(TimeUnit::MicroSeconds, Some(1)), &TimeUnit::MilliSeconds, &TimeFormat::default(), &c),
        "2.2 ms"
    );
    assert_eq!(
        time_string("2200", &ts(TimeUnit::MicroSeconds, Some(1)), &TimeUnit::NanoSeconds, &TimeFormat::default(), &c),
        "2200000 ns"
    );
    assert_eq!(
        time_string(
            "2200",
            &ts(TimeUnit::NanoSeconds, Some(1)),
            &TimeUnit::PicoSeconds,
            &TimeFormat { format: TimeStringFormatting::No, show_space: false, show_unit: true },
            &c
        ),
        "2200000ps"
    );
    assert_eq!(
        time_string(
            "2200",
            &ts(TimeUnit::MicroSeconds, Some(10)),
            &TimeUnit::MicroSeconds,
            &TimeFormat { format: TimeStringFormatting::No, show_space: false, show_unit: false },
            &c
        ),
        "22000"
    );
}

#[test]
fn print_time_si() {
    let c = cache();
    let si = TimeFormat { format: TimeStringFormatting::SI, show_space: true, show_unit: true };
    assert_eq!(
        time_string("123456789010", &ts(TimeUnit::MicroSeconds, Some(1)), &TimeUnit::Seconds, &si, &c),
        "123\u{2009}456.789\u{2009}01 s"
    );
    assert_eq!(
        time_string("1456789100", &ts(TimeUnit::MicroSeconds, Some(1)), &TimeUnit::Seconds, &si, &c),
        "1456.7891 s"
    );
    assert_eq!(
        time_string("2200", &ts(TimeUnit::MicroSeconds, Some(1)), &TimeUnit::MicroSeconds, &si, &c),
        "2200 μs"
    );
    assert_eq!(
        time_string("22200", &ts(TimeUnit::MicroSeconds, Some(1)), &TimeUnit::MicroSeconds, &si, &c),
        "22\u{2009}200 μs"
    );
}

#[test]
fn print_time_auto() {
    let c = cache();
    let si = TimeFormat { format: TimeStringFormatting::SI, show_space: true, show_unit: true };
    assert_eq!(
        time_string("2200", &ts(TimeUnit::MicroSeconds, Some(1)), &TimeUnit::Auto, &si, &c),
        "2200 μs"
    );
    assert_eq!(
        time_string("22000", &ts(TimeUnit::MicroSeconds, Some(1)), &TimeUnit::Auto, &si, &c),
        "22 ms"
    );
    assert_eq!(
        time_string("1500000000", &ts(TimeUnit::PicoSeconds, Some(1)), &TimeUnit::Auto, &si, &c),
        "1500 μs"
    );
    assert_eq!(
        time_string("22000", &ts(TimeUnit::MicroSeconds, Some(10)), &TimeUnit::Auto, &si, &c),
        "220 ms"
    );
    assert_eq!(
        time_string("220000", &ts(TimeUnit::MicroSeconds, Some(100)), &TimeUnit::Auto, &si, &c),
        "22 s"
    );
    assert_eq!(
        time_string(
            "22000",
            &ts(TimeUnit::Seconds, Some(10)),
            &TimeUnit::Auto,
            &TimeFormat { format: TimeStringFormatting::No, show_space: true, show_unit: true },
            &c
        ),
        "220000 s"
    );
}

#[test]
fn print_time_none() {
    let c = cache();
    let plain = TimeFormat { format: TimeStringFormatting::No, show_space: true, show_unit: true };
    assert_eq!(
        time_string("2200", &ts(TimeUnit::MicroSeconds, Some(1)), &TimeUnit::NoUnit, &plain, &c),
        "2200"
    );
    assert_eq!(
        time_string("220", &ts(TimeUnit::MicroSeconds, Some(10)), &TimeUnit::NoUnit, &plain, &c),
        "220"
    );
}

#[test]
fn test_strip_trailing_zeros_and_period() {
    assert_eq!(strip_trailing_zeros_and_period("123.000".into()), "123");
    assert_eq!(strip_trailing_zeros_and_period("123.450".into()), "123.45");
    assert_eq!(strip_trailing_zeros_and_period("123.456".into()), "123.456");
    assert_eq!(strip_trailing_zeros_and_period("123.".into()), "123");
    assert_eq!(strip_trailing_zeros_and_period("123".into()), "123");
    assert_eq!(strip_trailing_zeros_and_period("0.000".into()), "0");
    assert_eq!(strip_trailing_zeros_and_period("0.100".into()), "0.1");
    assert_eq!(strip_trailing_zeros_and_period(String::new()), "");
}

#[test]
fn test_format_si() {
    // 4-digit rule: no grouping for 4 digits or less
    assert_eq!(format_si("1234.56"), "1234.56");
    assert_eq!(format_si("123.4"), "123.4");

    // Grouping for 5+ digits
    assert_eq!(format_si("12345.67"), "12\u{2009}345.67");
    assert_eq!(format_si("1234567.89"), "1\u{2009}234\u{2009}567.89");
    // No decimal part
    assert_eq!(format_si("12345"), "12\u{2009}345");
    assert_eq!(format_si("123"), "123");

    // Empty inputs
    assert_eq!(format_si("0.123"), "0.123");
    assert_eq!(format_si(""), "");

    // Decimal grouping
    assert_eq!(format_si("123.4567890"), "123.456\u{2009}789\u{2009}0");
}

#[test]
fn test_time_unit_exponent() {
    assert_eq!(TimeUnit::Seconds.exponent(), 0);
    assert_eq!(TimeUnit::MilliSeconds.exponent(), -3);
    assert_eq!(TimeUnit::MicroSeconds.exponent(), -6);
    assert_eq!(TimeUnit::NanoSeconds.exponent(), -9);
    assert_eq!(TimeUnit::PicoSeconds.exponent(), -12);
    assert_eq!(TimeUnit::FemtoSeconds.exponent(), -15);
    assert_eq!(TimeUnit::AttoSeconds.exponent(), -18);
    assert_eq!(TimeUnit::ZeptoSeconds.exponent(), -21);

    for unit in [
        TimeUnit::Seconds,
        TimeUnit::MilliSeconds,
        TimeUnit::MicroSeconds,
        TimeUnit::NanoSeconds,
        TimeUnit::PicoSeconds,
        TimeUnit::FemtoSeconds,
        TimeUnit::AttoSeconds,
        TimeUnit::ZeptoSeconds,
    ] {
        assert_eq!(TimeUnit::from_exponent(unit.exponent()), Some(unit));
    }

    assert_eq!(TimeUnit::from_exponent(-5), None);
    assert_eq!(TimeUnit::from_exponent(1), None);
}

#[test]
fn test_time_string_zero() {
    let c = cache();
    assert_eq!(
        time_string("0", &ts(TimeUnit::MicroSeconds, Some(1)), &TimeUnit::MicroSeconds, &TimeFormat::default(), &c),
        "0 μs"
    );
    assert_eq!(
        time_string("0", &ts(TimeUnit::Seconds, Some(1)), &TimeUnit::Auto, &TimeFormat::default(), &c),
        "0 s"
    );
}

#[test]
fn test_time_string_large_numbers() {
    let c = cache();
    assert_eq!(
        time_string(
            "999999999999",
            &ts(TimeUnit::NanoSeconds, Some(1)),
            &TimeUnit::Seconds,
            &TimeFormat { format: TimeStringFormatting::SI, show_space: true, show_unit: true },
            &c
        ),
        "999.999\u{2009}999\u{2009}999 s"
    );
}

#[test]
fn test_time_string_no_multiplier() {
    let c = cache();
    assert_eq!(
        time_string("1234", &ts(TimeUnit::NanoSeconds, None), &TimeUnit::NanoSeconds, &TimeFormat::default(), &c),
        "1234 ns"
    );
}

#[test]
fn test_time_format_variations() {
    let c = cache();
    let value = "123456";
    let scale = ts(TimeUnit::NanoSeconds, Some(1));
    assert_eq!(
        time_string(value, &scale, &TimeUnit::NanoSeconds, &TimeFormat { format: TimeStringFormatting::No, show_space: true, show_unit: true }, &c),
        "123456 ns"
    );
    assert_eq!(
        time_string(value, &scale, &TimeUnit::NanoSeconds, &TimeFormat { format: TimeStringFormatting::No, show_space: false, show_unit: true }, &c),
        "123456ns"
    );
    assert_eq!(
        time_string(value, &scale, &TimeUnit::NanoSeconds, &TimeFormat { format: TimeStringFormatting::No, show_space: true, show_unit: false }, &c),
        "123456 "
    );
    assert_eq!(
        time_string(value, &scale, &TimeUnit::NanoSeconds, &TimeFormat { format: TimeStringFormatting::SI, show_space: true, show_unit: true }, &c),
        "123\u{2009}456 ns"
    );
}

#[test]
fn test_find_auto_scale_seconds_passthrough() {
    let t = ts(TimeUnit::Seconds, Some(1));
    assert_eq!(find_auto_scale("1", &t), TimeUnit::Seconds);
    assert_eq!(find_auto_scale("1234567", &t), TimeUnit::Seconds);
}

#[test]
fn test_find_auto_scale_nanoseconds() {
    let t = ts(TimeUnit::NanoSeconds, Some(1));
    assert_eq!(find_auto_scale("1000000000", &t), TimeUnit::Seconds);
    assert_eq!(find_auto_scale("1000000", &t), TimeUnit::MilliSeconds);
    assert_eq!(find_auto_scale("1000", &t), TimeUnit::MicroSeconds);
    assert_eq!(find_auto_scale("1234", &t), TimeUnit::NanoSeconds);
}

#[test]
fn test_find_auto_scale_microseconds_with_multiplier() {
    let ts_none = ts(TimeUnit::MicroSeconds, None);
    assert_eq!(find_auto_scale("1000000", &ts_none), TimeUnit::Seconds);
    assert_eq!(find_auto_scale("1000", &ts_none), TimeUnit::MilliSeconds);
    assert_eq!(find_auto_scale("123", &ts_none), TimeUnit::MicroSeconds);

    let ts_mul10 = ts(TimeUnit::MicroSeconds, Some(10));
    assert_eq!(find_auto_scale("100000", &ts_mul10), TimeUnit::Seconds);
    assert_eq!(find_auto_scale("100", &ts_mul10), TimeUnit::MilliSeconds);
    assert_eq!(find_auto_scale("123", &ts_mul10), TimeUnit::MicroSeconds);
}

#[test]
fn test_find_auto_scale_femtoseconds() {
    let t = ts(TimeUnit::FemtoSeconds, Some(1));
    assert_eq!(find_auto_scale("1000000000000000", &t), TimeUnit::Seconds);
    assert_eq!(find_auto_scale("1000000000000", &t), TimeUnit::MilliSeconds);
    assert_eq!(find_auto_scale("1000000000", &t), TimeUnit::MicroSeconds);
    assert_eq!(find_auto_scale("1000000", &t), TimeUnit::NanoSeconds);
    assert_eq!(find_auto_scale("1000", &t), TimeUnit::PicoSeconds);
    assert_eq!(find_auto_scale("1", &t), TimeUnit::FemtoSeconds);
}

#[test]
fn format_locale_groups_integer_part_and_replaces_point() {
    let c = LocaleFormatCache {
        grouping: vec![3, 3],
        thousands_sep: ".".to_string(),
        decimal_point: ",".to_string(),
    };
    assert_eq!(format_locale("1234567.89", &c), "1.234.567,89");
    assert_eq!(format_locale("123", &c), "123");
    assert_eq!(format_locale("0", &c), "0");
    let ungrouped = LocaleFormatCache {
        grouping: vec![-1],
        thousands_sep: ".".to_string(),
        decimal_point: ",".to_string(),
    };
    assert_eq!(format_locale("1234567.89", &ungrouped), "1234567.89");
}

#[test]
fn time_string_negative_and_fractional_edges() {
    let c = cache();
    let plain = TimeFormat::default();
    assert_eq!(
        time_string("-1", &ts(TimeUnit::NanoSeconds, Some(1)), &TimeUnit::Seconds, &plain, &c),
        "-0.000000001 s"
    );
    assert_eq!(
        time_string("1500", &ts(TimeUnit::NanoSeconds, Some(1)), &TimeUnit::MicroSeconds, &plain, &c),
        "1.5 μs"
    );
    assert_eq!(
        time_string("3", &ts(TimeUnit::Seconds, Some(1)), &TimeUnit::NoUnit, &plain, &c),
        "3"
    );
}
