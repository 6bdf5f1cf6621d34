use libsurfer::split_field::range_preview;
use libsurfer::split_field::{
    compute_range, validate_range, SplitFieldDialogState, SplitFieldMessage, SplitMode,
};
use libsurfer::VisibleItemIndex;

fn dialog(total_bits: u32, mode: SplitMode, start: &str, end: &str, width: &str) -> SplitFieldDialogState {
    let mut state = SplitFieldDialogState::new(VisibleItemIndex(3), "bus".to_string(), total_bits);
    state.mode = mode;
    state.start_bit_str = start.to_string();
    state.end_bit_str = end.to_string();
    state.width_str = width.to_string();
    state
}

#[test]
fn new_dialog_presets_whole_signal() {
    let state = SplitFieldDialogState::new(VisibleItemIndex(7), "data".to_string(), 16);
    assert_eq!(state.source_vidx, VisibleItemIndex(7));
    assert_eq!(state.source_name, "data");
    assert_eq!(state.total_bits, 16);
    assert_eq!(state.mode, SplitMode::StartEnd);
    assert_eq!(state.start_bit_str, "0");
    assert_eq!(state.end_bit_str, "15");
    assert_eq!(state.width_str, "16");
    assert_eq!(state.error, None);
}

#[test]
fn new_dialog_with_unknown_width() {
    let state = SplitFieldDialogState::new(VisibleItemIndex(0), "x".to_string(), 0);
    assert_eq!(state.end_bit_str, "0");
    assert_eq!(state.width_str, "0");
    assert_eq!(compute_range(&state), Ok((0, 0)));
}

#[test]
fn mode_labels() {
    assert_eq!(SplitMode::StartEnd.label(), "Start Bit & End Bit");
    assert_eq!(SplitMode::StartWidth.label(), "Start Bit & Width");
    assert_eq!(SplitMode::EndWidth.label(), "End Bit & Width");
}

#[test]
fn range_from_start_and_end() {
    let state = dialog(32, SplitMode::StartEnd, " 4 ", "\t11\n", "");
    assert_eq!(compute_range(&state), Ok((4, 11)));
}

#[test]
fn range_from_start_and_width() {
    let state = dialog(32, SplitMode::StartWidth, "8", "", "4");
    assert_eq!(compute_range(&state), Ok((8, 11)));
}

#[test]
fn range_from_end_and_width() {
    let state = dialog(32, SplitMode::EndWidth, "", "15", "8");
    assert_eq!(compute_range(&state), Ok((8, 15)));
    let whole = dialog(32, SplitMode::EndWidth, "", "7", "8");
    assert_eq!(compute_range(&whole), Ok((0, 7)));
}

#[test]
fn range_errors() {
    assert_eq!(
        compute_range(&dialog(8, SplitMode::StartEnd, "a", "3", "")),
        Err("Start bit must be a non-negative integer".to_string())
    );
    assert_eq!(
        compute_range(&dialog(8, SplitMode::StartEnd, "-1", "3", "")),
        Err("Start bit must be a non-negative integer".to_string())
    );
    assert_eq!(
        compute_range(&dialog(8, SplitMode::StartEnd, "1", "", "")),
        Err("End bit must be a non-negative integer".to_string())
    );
    assert_eq!(
        compute_range(&dialog(8, SplitMode::StartWidth, "1", "", "w")),
        Err("Width must be a positive integer".to_string())
    );
    assert_eq!(
        compute_range(&dialog(8, SplitMode::StartWidth, "1", "", "0")),
        Err("Width must be at least 1".to_string())
    );
    assert_eq!(
        compute_range(&dialog(8, SplitMode::EndWidth, "", "x", "2")),
        Err("End bit must be a non-negative integer".to_string())
    );
    assert_eq!(
        compute_range(&dialog(8, SplitMode::EndWidth, "", "3", "0")),
        Err("Width must be at least 1".to_string())
    );
    assert_eq!(
        compute_range(&dialog(8, SplitMode::EndWidth, "", "3", "5")),
        Err("Width (5) exceeds end bit + 1 (4)".to_string())
    );
}

#[test]
fn validate_range_checks() {
    let state = dialog(8, SplitMode::StartEnd, "0", "7", "8");
    assert_eq!(validate_range(&state, 2, 5), Ok((2, 5)));
    assert_eq!(validate_range(&state, 0, 7), Ok((0, 7)));
    assert_eq!(
        validate_range(&state, 5, 2),
        Err("Start bit (5) must be \u{2264} end bit (2)".to_string())
    );
    assert_eq!(
        validate_range(&state, 0, 8),
        Err("End bit (8) must be < total bits (8)".to_string())
    );
    let unknown = dialog(0, SplitMode::StartEnd, "0", "0", "0");
    assert_eq!(validate_range(&unknown, 3, 100), Ok((3, 100)));
}

#[test]
fn extract_sends_split_field_and_closes() {
    let mut state = dialog(16, SplitMode::StartWidth, "4", "", "4");
    let msgs = state.extract_clicked();
    assert_eq!(msgs.len(), 2);
    assert!(matches!(
        msgs[0],
        SplitFieldMessage::ExtractSplitField { source_vidx: VisibleItemIndex(3), start_bit: 4, end_bit: 7 }
    ));
    assert!(matches!(msgs[1], SplitFieldMessage::CloseSplitFieldDialog));
    assert_eq!(state.error, None);
}

#[test]
fn extract_shows_error_and_stays_open() {
    let mut state = dialog(8, SplitMode::StartEnd, "2", "9", "");
    let msgs = state.extract_clicked();
    assert!(msgs.is_empty());
    assert_eq!(state.error, Some("End bit (9) must be < total bits (8)".to_string()));
    let mut bad = dialog(8, SplitMode::StartEnd, "two", "3", "");
    assert!(bad.extract_clicked().is_empty());
    assert_eq!(bad.error, Some("Start bit must be a non-negative integer".to_string()));
}

#[test]
fn fresh_dialog_extracts_whole_signal() {
    let mut state = SplitFieldDialogState::new(VisibleItemIndex(1), "s".to_string(), 12);
    let msgs = state.extract_clicked();
    assert!(matches!(
        msgs[0],
        SplitFieldMessage::ExtractSplitField { start_bit: 0, end_bit: 11, .. }
    ));
}

#[test]
fn caption_and_preview() {
    let state = SplitFieldDialogState::new(VisibleItemIndex(0), "top.bus".to_string(), 16);
    assert_eq!(state.caption(), "Signal: top.bus (16 bits, index 0 = LSB)");
    assert_eq!(range_preview(4, 11), "\u{2192} bits [11:4], width = 8");
    assert_eq!(range_preview(0, 0), "\u{2192} bits [0:0], width = 1");
}
