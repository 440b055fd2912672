use std::collections::HashMap;
use std::sync::mpsc::channel;

use libsurfer::batch_commands::{parse_batch_commands, plan_batch_commands, BatchStep};
use libsurfer::channels::{checked_send, checked_send_many, MessageSender};
use libsurfer::data_container::DataContainer;
use libsurfer::displayed_item::{DisplayedFieldRef, DisplayedItemRef, DisplayedMarker};
use libsurfer::drawing_canvas::DrawDataCache;
use libsurfer::frame_buffer::bits_to_u16_padded;
use libsurfer::marker::{WaveData, MAX_MARKERS};
use libsurfer::system_state::Message;

fn lines(ls: &[&str]) -> Vec<String> {
    ls.iter().map(|l| l.to_string()).collect()
}

fn parse(line: usize, text: &str) -> BatchStep {
    BatchStep::Parse { line, text: text.to_string() }
}

#[test]
fn plan_loads_a_nested_file_in_place() {
    let plan = plan_batch_commands(&lines(&[
        "load_file a.vcd # the waves",
        "",
        "run_command_file other.sucl; zoom_fit",
        "run_command_file   ",
    ]));
    assert_eq!(
        plan,
        vec![
            parse(1, "load_file a.vcd"),
            BatchStep::QueueParsed,
            BatchStep::RunCommandFile("other.sucl".to_string()),
            parse(3, "zoom_fit"),
            // Trimmed, the command is the bare word, which goes to the parser.
            parse(4, "run_command_file"),
            BatchStep::QueueParsed,
        ]
    );
}

#[test]
fn plan_of_an_empty_file_only_queues() {
    assert_eq!(plan_batch_commands(&vec![]), vec![BatchStep::QueueParsed]);
}

#[test]
fn sending_reports_a_closed_channel() {
    let (tx, rx) = channel();
    let mut sender = MessageSender::new(tx);
    assert!(checked_send(&mut sender, Message::Error("first".to_string())));
    assert_eq!(
        checked_send_many(
            &mut sender,
            vec![Message::Error("second".to_string()), Message::Error("third".to_string())]
        ),
        0
    );
    let received: Vec<String> = rx
        .try_iter()
        .map(|m| match m {
            Message::Error(text) => text,
            other => format!("{other:?}"),
        })
        .collect();
    assert_eq!(received, vec!["first", "second", "third"]);
    drop(rx);
    assert!(!checked_send(&mut sender, Message::Exit));
    assert_eq!(checked_send_many(&mut sender, vec![Message::Exit, Message::Exit]), 2);
}

#[test]
fn a_field_ref_from_an_item_ref_has_no_field() {
    let f: DisplayedFieldRef = DisplayedItemRef(7).into();
    assert_eq!(f.item, DisplayedItemRef(7));
    assert!(f.field.is_empty());
}

#[test]
fn data_container_tells_its_kind() {
    let waves: DataContainer<u32, String> = DataContainer::Waves(3);
    assert!(waves.is_waves() && !waves.is_transactions());
    assert_eq!(waves.as_waves(), Some(&3));
    assert_eq!(waves.as_transactions(), None);
    let mut streams: DataContainer<u32, String> = DataContainer::Transactions("s".to_string());
    assert!(streams.is_transactions() && !streams.is_waves());
    if let Some(t) = streams.as_transactions_mut() {
        t.push('t');
    }
    assert_eq!(streams.as_transactions().map(|s| s.as_str()), Some("st"));
    assert!(streams.as_waves_mut().is_none());
    let empty: DataContainer<u32, String> = DataContainer::__new_empty();
    assert!(!empty.is_waves() && !empty.is_transactions());
}

#[test]
fn invalidation_clears_the_viewports_only() {
    let mut cache = DrawDataCache { draw_data: vec![Some(1), Some(2), Some(3)] };
    cache.invalidate_draw_commands(None);
    assert_eq!(cache.draw_data, vec![Some(1), Some(2), Some(3)]);
    cache.invalidate_draw_commands(Some(2));
    assert_eq!(cache.draw_data, vec![None, None, Some(3)]);
    cache.store_draw_data(1, Some(20));
    assert_eq!(cache.draw_data, vec![None, Some(20), Some(3)]);
}

#[test]
fn bits_can_be_read_at_the_last_index() {
    let bits = vec![true, false];
    assert_eq!(bits_to_u16_padded(&bits, usize::MAX, 1), 0);
    assert_eq!(bits_to_u16_padded(&bits, usize::MAX, 0), 0);
}

fn marker_view() -> WaveData {
    WaveData {
        markers: HashMap::new(),
        marker_items: vec![],
        display_item_ref_counter: 4,
        cursor: None,
    }
}

#[test]
fn markers_follow_the_cursor_and_can_be_removed() {
    let mut w = marker_view();
    assert!(w.can_add_marker());
    w.move_marker_to_cursor(2);
    assert!(w.markers.is_empty() && w.marker_items.is_empty());

    w.cursor = Some("150".to_string());
    w.move_marker_to_cursor(2);
    assert_eq!(w.markers.get(&2).map(|s| s.as_str()), Some("150"));
    assert_eq!(w.display_item_ref_counter, 5);
    assert_eq!(w.marker_items.len(), 1);
    assert_eq!(w.marker_items[0].0, DisplayedItemRef(5));
    assert_eq!(w.marker_items[0].1.idx, 2);
    assert!(w.marker_items[0].1.name.is_none());

    w.cursor = Some("-20".to_string());
    w.move_marker_to_cursor(2);
    assert_eq!(w.markers.get(&2).map(|s| s.as_str()), Some("-20"));
    assert_eq!(w.marker_items.len(), 1);
    assert_eq!(w.display_item_ref_counter, 5);

    w.remove_marker(9);
    assert_eq!(w.markers.len(), 1);
    w.remove_marker(2);
    assert!(w.markers.is_empty() && w.marker_items.is_empty());
}

#[test]
fn no_marker_can_be_added_to_a_full_view() {
    let mut w = marker_view();
    for idx in 0..MAX_MARKERS {
        w.markers.insert(idx as u8, "0".to_string());
        w.marker_items.push((
            DisplayedItemRef(idx),
            DisplayedMarker { color: None, background_color: None, name: None, idx: idx as u8 },
        ));
    }
    assert!(!w.can_add_marker());
    w.remove_marker(3);
    assert!(w.can_add_marker());
    assert!(w.marker_items.iter().all(|(_, m)| m.idx != 3));
}

fn toy_parser(text: String) -> Option<Message> {
    if text == "exit" {
        Some(Message::Exit)
    } else if text.starts_with("say ") {
        Some(Message::Error(text[4..].to_string()))
    } else {
        None
    }
}

fn texts_of(messages: Vec<Message>) -> Vec<String> {
    messages.iter().map(|m| format!("{m:?}")).collect()
}

#[test]
fn parsing_goes_line_by_line() {
    let one_line = parse_batch_commands(&lines(&["say a; say b # c"]), toy_parser);
    let spread = parse_batch_commands(&lines(&["say a", "", "  # x", "say b"]), toy_parser);
    assert_eq!(texts_of(one_line), vec!["Error(\"a\")", "Error(\"b\")"]);
    assert_eq!(texts_of(spread), vec!["Error(\"a\")", "Error(\"b\")"]);
}

#[test]
fn parsing_skips_nested_files_and_unknown_commands() {
    let parsed = parse_batch_commands(
        &lines(&["nonsense; exit", "run_command_file other.sucl", "say done"]),
        toy_parser,
    );
    assert_eq!(texts_of(parsed), vec!["Exit", "Error(\"done\")"]);
}
