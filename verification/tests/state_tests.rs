use libsurfer::batch_commands::{lines_of, read_command_bytes};
use libsurfer::data_container::VariableType;
use libsurfer::hierarchy::ScopeExpandType;
use libsurfer::remote::{format_signal_url, plan_signal_batches, signal_url_len};
use libsurfer::svg_export::escape_xml;
use libsurfer::system_state::{LoadProgress, LoadProgressStatus, Message, SystemState, UserState};
use libsurfer::time::{TimeFormat, TimeStringFormatting};
use libsurfer::wave_refs::{ScopeRef, TransactionStreamRef, VarId, VariableRef};

fn state() -> SystemState {
    SystemState::new(UserState {
        default_time_format: TimeFormat::default(),
        time_string_format: None,
    })
}

fn scope(names: &[&str]) -> ScopeRef {
    ScopeRef::from_strs(names.iter().map(|s| s.to_string()).collect())
}

#[test]
fn test_signal_url_length_calculation() {
    assert_eq!(signal_url_len(0), 2); // "/0" -> 2 chars
    assert_eq!(signal_url_len(1), 2); // "/1" -> 2 chars
    assert_eq!(signal_url_len(9), 2); // "/9" -> 2 chars
    assert_eq!(signal_url_len(10), 3); // "/10" -> 3 chars
    assert_eq!(signal_url_len(99), 3); // "/99" -> 3 chars
    assert_eq!(signal_url_len(100), 4); // "/100" -> 4 chars
    assert_eq!(signal_url_len(999), 4); // "/999" -> 4 chars
    assert_eq!(signal_url_len(1000), 5); // "/1000" -> 5 chars
    assert_eq!(signal_url_len(65535), 6); // "/65535" -> 6 chars
}

#[test]
fn test_empty_signals_returns_empty() {
    let signals: Vec<usize> = vec![];
    let base = "http://localhost:8080/0/get_signals";
    let result = plan_signal_batches(base.len(), &signals, 1000);
    assert_eq!(result.len(), 0);
}

#[test]
fn test_boundary_signal_indices() {
    let boundary_indices = vec![0, 1, 9, 10, 99, 100, 999, 1000, 9999, 10000];
    for idx in boundary_indices {
        let len = signal_url_len(idx);
        let actual = format!("/{idx}");
        assert_eq!(
            len,
            actual.len(),
            "URL length calculation mismatch for index {}: expected {}, got {}",
            idx,
            actual.len(),
            len
        );
    }
}

#[test]
fn test_url_construction_format() {
    let base_url = "http://localhost:8080/get_signals";
    let signals: Vec<usize> = vec![1, 42, 999];
    let url = format_signal_url(base_url, &signals);
    assert_eq!(url, "http://localhost:8080/get_signals/1/42/999");
}

#[test]
fn signal_batches_respect_the_url_limit_and_keep_order() {
    // base 10, "/1" = 2, "/22" = 3, "/333" = 4: limit 16 holds 10+2+3, not +4
    let batches = plan_signal_batches(10, &[1, 22, 333, 4444, 5], 16);
    assert_eq!(batches, vec![vec![1, 22], vec![333], vec![4444], vec![5]]);
    let batches = plan_signal_batches(10, &[1, 2, 3], 16);
    assert_eq!(batches, vec![vec![1, 2, 3]]);
    // a signal too long for the limit on its own still gets a request
    let batches = plan_signal_batches(10, &[123456, 7], 12);
    assert_eq!(batches, vec![vec![123456], vec![7]]);
    let url = format_signal_url("x", &[]);
    assert_eq!(url, "x");
}

#[test]
fn batch_messages_are_applied_in_order_when_idle() {
    let mut s = state();
    assert!(s.batch_commands_completed());
    s.add_batch_message(Message::Error("one".to_string()));
    s.add_batch_messages(vec![Message::Exit]);
    assert!(!s.batch_commands_completed());
    assert!(!s.finish_batch_commands());

    s.progress_tracker = Some(LoadProgress::new(LoadProgressStatus::Downloading("u".to_string())));
    assert!(!s.can_start_batch_command());
    assert!(s.take_batch_message().is_none());
    s.progress_tracker = None;

    assert!(matches!(s.take_batch_message(), Some(Message::Error(t)) if t == "one"));
    assert!(matches!(s.take_batch_message(), Some(Message::Exit)));
    // the queue is empty but the batch is not complete until it is finished
    assert!(!s.batch_commands_completed());
    assert!(s.take_batch_message().is_none());
    assert!(s.finish_batch_commands());
    assert!(s.batch_commands_completed());
    assert!(!s.finish_batch_commands());
    s.add_batch_messages(vec![]);
    assert!(s.batch_commands_completed());
}

#[test]
fn command_bytes_are_split_into_lines() {
    let lines = read_command_bytes(b"zoom_fit\r\n\nscope_add top # all\nlast".to_vec());
    assert_eq!(lines, vec!["zoom_fit", "", "scope_add top # all", "last"]);
    assert_eq!(read_command_bytes(b"a\n".to_vec()), vec!["a"]);
    assert!(read_command_bytes(vec![]).is_empty());
    assert!(read_command_bytes(vec![0xff, 0xfe, b'\n']).is_empty());
    assert_eq!(lines_of("x\ry"), vec!["x\ry"]);
}

#[test]
fn time_format_follows_the_user_choice() {
    let mut s = state();
    assert_eq!(s.get_time_format(), TimeFormat::default());
    s.user.time_string_format = Some(TimeStringFormatting::SI);
    assert_eq!(s.get_time_format(), TimeFormat::default().with_format(TimeStringFormatting::SI));
}

#[test]
fn scope_headers_follow_the_expand_request() {
    let mut s = state();
    assert_eq!(s.should_open_header_and_scroll_to(&scope(&["top"])), None);
    s.scope_ref_to_expand = Some(ScopeExpandType::ExpandAll);
    assert_eq!(s.should_open_header_and_scroll_to(&scope(&["top"])), Some((true, false)));
    s.scope_ref_to_expand = Some(ScopeExpandType::CollapseAll);
    assert_eq!(s.should_open_header_and_scroll_to(&scope(&["top"])), Some((false, false)));

    s.scope_ref_to_expand = Some(ScopeExpandType::ExpandSpecific(scope(&["top", "cpu", "alu"])));
    assert_eq!(s.should_open_header_and_scroll_to(&scope(&["top"])), Some((true, true)));
    assert!(s.scope_ref_to_expand.is_some());
    assert_eq!(s.should_open_header_and_scroll_to(&scope(&["other"])), None);
    assert_eq!(s.should_open_header_and_scroll_to(&scope(&["top", "cpu"])), Some((true, true)));
    assert!(s.scope_ref_to_expand.is_none());
}

#[test]
fn variable_names_with_and_without_index() {
    let v = VariableType::Variable(VariableRef::new_with_id_and_index(
        scope(&["top"]),
        "mem".to_string(),
        VarId(1),
        Some(-12),
    ));
    assert_eq!(v.name(), "mem");
    assert_eq!(v.name_with_index(), "mem[-12]");
    let v = VariableType::Variable(VariableRef::new(scope(&["top"]), "clk".to_string()));
    assert_eq!(v.name_with_index(), "clk");
    let g = VariableType::Generator(TransactionStreamRef {
        stream_id: 1,
        gen_id: Some(2),
        name: "gen".to_string(),
    });
    assert_eq!(g.name(), "gen");
    assert_eq!(g.name_with_index(), "gen");
}

#[test]
fn xml_text_is_escaped() {
    assert_eq!(escape_xml("a<b & 'c' > \"d\""), "a&lt;b &amp; &apos;c&apos; &gt; &quot;d&quot;");
    assert_eq!(escape_xml("plain"), "plain");
    assert_eq!(escape_xml(""), "");
}
