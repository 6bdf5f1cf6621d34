use libsurfer::bignum::SignedBigInt;
use libsurfer::comment::Comment;
use num::BigInt;
use libsurfer::file_dialog::{
    command_file_filter, filters_to_json, python_file_filter, waveform_file_filter, OpenMode,
    TRANSACTIONS_FILE_EXTENSION,
};
use libsurfer::find_value::{FindValueInput, FindValueMessage, FindValueState};
use libsurfer::gesture::{GestureDirection, GestureKind, GestureZones};
use libsurfer::VisibleItemIndex;

fn big(v: i64) -> SignedBigInt {
    SignedBigInt { bytes: BigInt::from(v).to_signed_bytes_le() }
}

fn no_input() -> FindValueInput {
    FindValueInput {
        find_clicked: false,
        enter_pressed: false,
        previous_clicked: false,
        next_clicked: false,
        exit_clicked: false,
        open: true,
    }
}

#[test]
fn find_value_new_is_empty() {
    let s = FindValueState::new(VisibleItemIndex(4));
    assert_eq!(s.vidx, VisibleItemIndex(4));
    assert_eq!(s.search_input, "");
    assert!(s.occurrences.is_empty());
    assert_eq!(s.current_idx, None);
    assert!(!s.not_found);
    assert_eq!(s.occurrence_label(), None);
}

#[test]
fn occurrence_label_counts_from_one() {
    let mut s = FindValueState::new(VisibleItemIndex(0));
    s.occurrences = vec![big(5), big(9), big(12)];
    s.current_idx = Some(1);
    assert_eq!(s.occurrence_label(), Some("2 / 3 occurrences".to_string()));
}

#[test]
fn find_value_messages() {
    let mut s = FindValueState::new(VisibleItemIndex(0));
    s.search_input = "0x1f".to_string();
    let msgs = s.dialog_messages(FindValueInput { find_clicked: true, ..no_input() });
    assert_eq!(msgs.len(), 1);
    assert!(matches!(&msgs[0], FindValueMessage::FindValueSearch(t) if t == "0x1f"));

    let none = s.dialog_messages(FindValueInput { previous_clicked: true, next_clicked: true, ..no_input() });
    assert!(none.is_empty());

    s.occurrences = vec![big(1), big(2)];
    let steps = s.dialog_messages(FindValueInput { previous_clicked: true, next_clicked: true, ..no_input() });
    assert_eq!(steps.len(), 2);
    assert!(matches!(steps[0], FindValueMessage::FindValuePrevious));
    assert!(matches!(steps[1], FindValueMessage::FindValueNext));

    let close = s.dialog_messages(FindValueInput { exit_clicked: true, open: false, ..no_input() });
    assert_eq!(close.len(), 2);
    assert!(matches!(close[0], FindValueMessage::CloseFindValueDialog));
    assert!(matches!(close[1], FindValueMessage::CloseFindValueDialog));

    let enter = s.dialog_messages(FindValueInput { enter_pressed: true, ..no_input() });
    assert_eq!(enter.len(), 1);
}

#[test]
fn comment_new_is_empty_and_hidden() {
    let c = Comment::new(3, 9);
    assert_eq!(c.id, 3);
    assert_eq!(c.annotation_id, 9);
    assert_eq!(c.name, "");
    assert!(!c.visible);
    assert!(c.message_chain.is_empty());
    assert_eq!(c.save_text, None);
    assert!(!c.change);
}

#[test]
fn comment_submit_trims_text() {
    let mut c = Comment::new(1, 1);
    c.new_text = "  hello world \n".to_string();
    c.submit_new_text();
    assert_eq!(c.save_text, Some("hello world".to_string()));
    assert_eq!(c.message_id_source, 1);
    assert!(c.change);
    assert_eq!(c.new_text, "");
}

#[test]
fn comment_blank_text_is_not_submitted() {
    let mut c = Comment::new(1, 1);
    c.new_text = "   \t".to_string();
    c.submit_new_text();
    assert_eq!(c.save_text, None);
    assert_eq!(c.message_id_source, 0);
    assert!(!c.change);
    assert_eq!(c.new_text, "");
}

fn default_zones() -> GestureZones {
    GestureZones {
        north: GestureKind::ZoomToFit,
        northeast: GestureKind::ZoomIn,
        east: GestureKind::GoToEnd,
        southeast: GestureKind::ZoomOut,
        south: GestureKind::Cancel,
        southwest: GestureKind::ZoomOut,
        west: GestureKind::GoToStart,
        northwest: GestureKind::ZoomIn,
    }
}

#[test]
fn gesture_zones_pick_kind() {
    let z = default_zones();
    assert_eq!(z.kind_in(GestureDirection::North), GestureKind::ZoomToFit);
    assert_eq!(z.kind_in(GestureDirection::NorthEast), GestureKind::ZoomIn);
    assert_eq!(z.kind_in(GestureDirection::East), GestureKind::GoToEnd);
    assert_eq!(z.kind_in(GestureDirection::SouthEast), GestureKind::ZoomOut);
    assert_eq!(z.kind_in(GestureDirection::South), GestureKind::Cancel);
    assert_eq!(z.kind_in(GestureDirection::SouthWest), GestureKind::ZoomOut);
    assert_eq!(z.kind_in(GestureDirection::West), GestureKind::GoToStart);
    assert_eq!(z.kind_in(GestureDirection::NorthWest), GestureKind::ZoomIn);
}

#[test]
fn gesture_labels() {
    assert_eq!(GestureKind::ZoomToFit.label(), "Zoom to fit");
    assert_eq!(GestureKind::ZoomIn.label(), "Zoom in");
    assert_eq!(GestureKind::ZoomOut.label(), "Zoom out");
    assert_eq!(GestureKind::GoToEnd.label(), "Go to end");
    assert_eq!(GestureKind::GoToStart.label(), "Go to start");
    assert_eq!(GestureKind::Cancel.label(), "Cancel");
}

#[test]
fn filters_json_example() {
    let f = ("Waveform files".to_string(), vec!["vcd".to_string(), "fst".to_string()]);
    assert_eq!(filters_to_json(&f), r#"[{"name":"Waveform files","extensions":["vcd","fst"]}]"#);
}

#[test]
fn filters_json_escapes_and_empty_list() {
    let f = ("a\"b".to_string(), vec![]);
    assert_eq!(filters_to_json(&f), r#"[{"name":"a\"b","extensions":[]}]"#);
    let g = ("one".to_string(), vec!["x".to_string()]);
    assert_eq!(filters_to_json(&g), r#"[{"name":"one","extensions":["x"]}]"#);
}

#[test]
fn dialog_filters() {
    let (name, exts) = waveform_file_filter();
    assert_eq!(name, "Waveform/Transaction-files (*.vcd, *.fst, *.ghw, *.ftr)");
    assert_eq!(exts, vec!["vcd", "fst", "ghw", TRANSACTIONS_FILE_EXTENSION]);
    assert_eq!(TRANSACTIONS_FILE_EXTENSION, "ftr");
    let (cname, cexts) = command_file_filter();
    assert_eq!(cname, "Command-file (*.sucl)");
    assert_eq!(cexts, vec!["sucl"]);
    let (pname, pexts) = python_file_filter();
    assert_eq!(pname, "Python files (*.py)");
    assert_eq!(pexts, vec!["py"]);
    assert_ne!(OpenMode::Open, OpenMode::Switch);
}
