use libsurfer::batch_commands::{batch_command_lines, classify_batch_command, BatchCommandKind, NumberedCommand};
use libsurfer::config::hex_color_text_cuts_char;
use libsurfer::help::{ctrl_to_cmd, replace_all};
use libsurfer::time::{
    auto_scale_defined, create_cache, format_si, time_string_checked, TimeFormat, TimeScale,
    TimeStringFormatting, TimeUnit,
};

fn numbered(line: usize, text: &str) -> NumberedCommand {
    NumberedCommand { line, text: text.to_string() }
}

#[test]
fn command_lines_are_trimmed_split_and_stripped_of_comments() {
    let lines: Vec<String> = vec![
        "  zoom_fit  ".to_string(),
        "# only a comment".to_string(),
        "".to_string(),
        "scope_add top; variable_add clk # add the clock".to_string(),
        "a;;b".to_string(),
        "\u{3000}cursor_set 10\t".to_string(),
    ];
    assert_eq!(
        batch_command_lines(&lines),
        vec![
            numbered(1, "zoom_fit"),
            numbered(4, "scope_add top"),
            numbered(4, "variable_add clk"),
            numbered(5, "a"),
            numbered(5, ""),
            numbered(5, "b"),
            numbered(6, "cursor_set 10"),
        ]
    );
}

#[test]
fn run_command_file_commands_name_their_file() {
    assert_eq!(classify_batch_command("zoom_fit"), BatchCommandKind::Parse);
    assert_eq!(classify_batch_command("run_command_file"), BatchCommandKind::Parse);
    assert_eq!(
        classify_batch_command("run_command_file other.sucl"),
        BatchCommandKind::RunCommandFile(Some("other.sucl".to_string()))
    );
    assert_eq!(
        classify_batch_command("run_command_file   a.sucl b.sucl"),
        BatchCommandKind::RunCommandFile(Some("a.sucl".to_string()))
    );
    assert_eq!(
        classify_batch_command("run_command_file  "),
        BatchCommandKind::RunCommandFile(None)
    );
}

#[test]
fn ctrl_is_named_cmd_on_macos_only() {
    assert_eq!(ctrl_to_cmd("Ctrl+S", true), "Cmd+S");
    assert_eq!(ctrl_to_cmd("Ctrl+Shift+Ctrl", true), "Cmd+Shift+Cmd");
    assert_eq!(ctrl_to_cmd("Ctrl+S", false), "Ctrl+S");
    assert_eq!(replace_all("aaaa", "aa", "b"), "bb");
    assert_eq!(replace_all("abcab", "ab", ""), "c");
    assert_eq!(replace_all("xyz", "q", "r"), "xyz");
}

#[test]
fn hex_texts_that_would_cut_a_character_are_found() {
    assert!(!hex_color_text_cuts_char("abcdef"));
    assert!(!hex_color_text_cuts_char("abc"));
    assert!(hex_color_text_cuts_char("€"));
    assert!(hex_color_text_cuts_char("a€bc"));
    assert!(!hex_color_text_cuts_char("éaaaa"));
}

#[test]
fn time_strings_are_checked_before_formatting() {
    let cache = create_cache(&[3], ",", ".");
    let ts = TimeScale { unit: TimeUnit::NanoSeconds, multiplier: Some(0) };
    assert!(!auto_scale_defined("1000", &ts));
    assert_eq!(
        time_string_checked("1000", &ts, &TimeUnit::Auto, &TimeFormat::default(), &cache),
        None
    );
    let ts = TimeScale { unit: TimeUnit::NanoSeconds, multiplier: Some(1) };
    assert!(auto_scale_defined("1000", &ts));
    assert_eq!(
        time_string_checked("1000", &ts, &TimeUnit::Auto, &TimeFormat::default(), &cache),
        Some("1 μs".to_string())
    );
    let empty = create_cache(&[], ",", ".");
    let locale = TimeFormat::default().with_format(TimeStringFormatting::Locale);
    assert_eq!(time_string_checked("1000", &ts, &TimeUnit::NanoSeconds, &locale, &empty), None);
    assert_eq!(
        time_string_checked("1000", &ts, &TimeUnit::NanoSeconds, &locale, &cache),
        Some("1,000 ns".to_string())
    );
}

#[test]
fn si_grouping_is_decided_by_byte_length() {
    // two two-byte characters are four bytes: not grouped
    assert_eq!(format_si("éé"), "éé");
    assert_eq!(format_si("1.éé"), "1.éé");
    // four of them are eight bytes: grouped by characters
    assert_eq!(format_si("éééé"), "é\u{2009}ééé");
    assert_eq!(format_si("1.éééé"), "1.ééé\u{2009}é");
    // five bytes in three characters: grouped, but one group holds them all
    assert_eq!(format_si("12€"), "12€");
}

#[test]
fn commands_do_not_depend_on_their_lines() {
    let one_line: Vec<String> = vec!["a; b # c".to_string()];
    let spread: Vec<String> =
        vec!["a".to_string(), "".to_string(), "  # x".to_string(), "b".to_string()];
    let texts = |lines: &Vec<String>| -> Vec<String> {
        batch_command_lines(lines).into_iter().map(|c| c.text).collect()
    };
    assert_eq!(texts(&one_line), texts(&spread));
    assert_eq!(texts(&one_line), vec!["a", "b"]);
}

#[test]
fn times_of_any_size_are_formatted_exactly() {
    let cache = create_cache(&[3], ",", ".");
    let ns = TimeScale { unit: TimeUnit::NanoSeconds, multiplier: Some(1) };
    let plain = TimeFormat::default();
    assert_eq!(
        time_string_checked(
            "340282366920938463463374607431768211457123",
            &ns,
            &TimeUnit::MicroSeconds,
            &plain,
            &cache
        ),
        Some("340282366920938463463374607431768211457.123 μs".to_string())
    );
    assert_eq!(
        time_string_checked("-170141183460469231731687303715884105729", &ns, &TimeUnit::PicoSeconds, &plain, &cache),
        Some("-170141183460469231731687303715884105729000 ps".to_string())
    );
    // only the text that `Display` writes for an integer is read as a time
    assert_eq!(time_string_checked("0012", &ns, &TimeUnit::NanoSeconds, &plain, &cache), None);
    assert_eq!(time_string_checked("-0", &ns, &TimeUnit::NanoSeconds, &plain, &cache), None);
    assert_eq!(time_string_checked("", &ns, &TimeUnit::NanoSeconds, &plain, &cache), None);
    assert_eq!(
        time_string_checked("0", &ns, &TimeUnit::NanoSeconds, &plain, &cache),
        Some("0 ns".to_string())
    );
}
