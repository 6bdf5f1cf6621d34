//! The Split Field dialog: choosing a bit range of a signal to show on its own.
use vstd::prelude::*;
use vstd::string::*;

use crate::text::{
    decimal, decimal_string, lemma_parse_decimal, parse_u32, parse_u32_spec, trim_whitespace, trim_ws,
};
use crate::VisibleItemIndex;

verus! {

// ── Dialog state ─────────────────────────────────────────────────────────────

/// Selection mode for the Split Field extraction dialog.
#[derive(Debug, Clone, Copy, PartialEq, Eq, Structural)]
pub enum SplitMode {
    /// Specify start bit (LSB) and end bit (MSB).
    StartEnd,
    /// Specify start bit (LSB) and width (number of bits).
    StartWidth,
    /// Specify end bit (MSB) and width (number of bits).
    EndWidth,
}

pub open spec fn split_mode_label(mode: SplitMode) -> Seq<char> {
    match mode {
        SplitMode::StartEnd => "Start Bit & End Bit"@,
        SplitMode::StartWidth => "Start Bit & Width"@,
        SplitMode::EndWidth => "End Bit & Width"@,
    }
}

impl SplitMode {
    /// The text of the radio button that selects this mode.
    pub fn label(self) -> (r: &'static str)
        ensures
            r@ == split_mode_label(self),
    {
        match self {
            SplitMode::StartEnd => "Start Bit & End Bit",
            SplitMode::StartWidth => "Start Bit & Width",
            SplitMode::EndWidth => "End Bit & Width",
        }
    }
}

/// State for the Split Field extraction dialog.
pub struct SplitFieldDialogState {
    pub source_vidx: VisibleItemIndex,
    pub source_name: String,
    pub total_bits: u32,
    pub mode: SplitMode,
    pub start_bit_str: String,
    pub end_bit_str: String,
    pub width_str: String,
    pub error: Option<String>,
}

impl SplitFieldDialogState {
    /// A dialog for `source_name`, preset to the whole signal: bits
    /// `[total_bits - 1 : 0]`.
    pub fn new(source_vidx: VisibleItemIndex, source_name: String, total_bits: u32) -> (r: Self)
        ensures
            r.source_vidx == source_vidx,
            r.source_name == source_name,
            r.total_bits == total_bits,
            r.mode == SplitMode::StartEnd,
            r.start_bit_str@ == "0"@,
            r.end_bit_str@ == (if total_bits > 0 {
                decimal((total_bits - 1) as nat)
            } else {
                "0"@
            }),
            r.width_str@ == decimal(total_bits as nat),
            r.error.is_none(),
    {
        let default_width = decimal_string(total_bits as u64);
        let default_end = if total_bits > 0 {
            decimal_string((total_bits - 1) as u64)
        } else {
            String::from_str("0")
        };
        SplitFieldDialogState {
            source_vidx,
            source_name,
            total_bits,
            mode: SplitMode::StartEnd,
            start_bit_str: String::from_str("0"),
            end_bit_str: default_end,
            width_str: default_width,
            error: None,
        }
    }
}

// ── Range computation ────────────────────────────────────────────────────────

/// A field of the dialog read as a number: surrounding whitespace is ignored.
pub open spec fn field_number(s: Seq<char>) -> Option<u32> {
    parse_u32_spec(trim_ws(s))
}

pub open spec fn start_error() -> Seq<char> {
    "Start bit must be a non-negative integer"@
}

pub open spec fn end_error() -> Seq<char> {
    "End bit must be a non-negative integer"@
}

pub open spec fn width_error() -> Seq<char> {
    "Width must be a positive integer"@
}

pub open spec fn zero_width_error() -> Seq<char> {
    "Width must be at least 1"@
}

pub open spec fn width_exceeds_error(width: u32, limit: nat) -> Seq<char> {
    "Width ("@ + decimal(width as nat) + ") exceeds end bit + 1 ("@ + decimal(limit) + ")"@
}

/// The `(start_bit, end_bit)` that the dialog's fields ask for, or why they
/// do not name a range.
pub open spec fn range_of_fields(
    mode: SplitMode,
    start: Seq<char>,
    end: Seq<char>,
    width: Seq<char>,
) -> Result<(u32, u32), Seq<char>> {
    match mode {
        SplitMode::StartEnd => match field_number(start) {
            None => Err(start_error()),
            Some(s) => match field_number(end) {
                None => Err(end_error()),
                Some(e) => Ok((s, e)),
            },
        },
        SplitMode::StartWidth => match field_number(start) {
            None => Err(start_error()),
            Some(s) => match field_number(width) {
                None => Err(width_error()),
                Some(w) => if w == 0 {
                    Err(zero_width_error())
                } else {
                    Ok((s, (s + w - 1) as u32))
                },
            },
        },
        SplitMode::EndWidth => match field_number(end) {
            None => Err(end_error()),
            Some(e) => match field_number(width) {
                None => Err(width_error()),
                Some(w) => if w == 0 {
                    Err(zero_width_error())
                } else if w > e + 1 {
                    Err(width_exceeds_error(w, (e + 1) as nat))
                } else {
                    Ok(((e + 1 - w) as u32, e))
                },
            },
        },
    }
}

/// The fields on which computing the range does not overflow a `u32`:
/// `start + width` for a start and a width, `end + 1` for an end and a width.
pub open spec fn range_fits(mode: SplitMode, start: Seq<char>, end: Seq<char>, width: Seq<char>) -> bool {
    match mode {
        SplitMode::StartEnd => true,
        SplitMode::StartWidth => match (field_number(start), field_number(width)) {
            (Some(s), Some(w)) => w != 0 ==> s + w <= u32::MAX,
            _ => true,
        },
        SplitMode::EndWidth => match (field_number(end), field_number(width)) {
            (Some(e), Some(w)) => w != 0 ==> e < u32::MAX,
            _ => true,
        },
    }
}

pub open spec fn range_result_view(r: Result<(u32, u32), String>) -> Result<(u32, u32), Seq<char>> {
    match r {
        Ok(p) => Ok(p),
        Err(m) => Err(m@),
    }
}

pub open spec fn state_range(state: SplitFieldDialogState) -> Result<(u32, u32), Seq<char>> {
    range_of_fields(state.mode, state.start_bit_str@, state.end_bit_str@, state.width_str@)
}

pub open spec fn state_range_fits(state: SplitFieldDialogState) -> bool {
    range_fits(state.mode, state.start_bit_str@, state.end_bit_str@, state.width_str@)
}

fn read_field(s: &String) -> (r: Option<u32>)
    ensures
        r == field_number(s@),
{
    parse_u32(trim_whitespace(s.as_str()))
}

fn message(text: &str) -> (r: String)
    ensures
        r@ == text@,
{
    String::from_str(text)
}

/// Compute (start_bit, end_bit) from the dialog state based on the selected mode.
pub fn compute_range(state: &SplitFieldDialogState) -> (r: Result<(u32, u32), String>)
    requires
        state_range_fits(*state),
    ensures
        range_result_view(r) == state_range(*state),
{
    match state.mode {
        SplitMode::StartEnd => {
            let start = match read_field(&state.start_bit_str) {
                Some(v) => v,
                None => return Err(message("Start bit must be a non-negative integer")),
            };
            let end = match read_field(&state.end_bit_str) {
                Some(v) => v,
                None => return Err(message("End bit must be a non-negative integer")),
            };
            Ok((start, end))
        },
        SplitMode::StartWidth => {
            let start = match read_field(&state.start_bit_str) {
                Some(v) => v,
                None => return Err(message("Start bit must be a non-negative integer")),
            };
            let width = match read_field(&state.width_str) {
                Some(v) => v,
                None => return Err(message("Width must be a positive integer")),
            };
            if width == 0 {
                return Err(message("Width must be at least 1"));
            }
            Ok((start, start + width - 1))
        },
        SplitMode::EndWidth => {
            let end = match read_field(&state.end_bit_str) {
                Some(v) => v,
                None => return Err(message("End bit must be a non-negative integer")),
            };
            let width = match read_field(&state.width_str) {
                Some(v) => v,
                None => return Err(message("Width must be a positive integer")),
            };
            if width == 0 {
                return Err(message("Width must be at least 1"));
            }
            if width > end + 1 {
                let mut m = message("Width (");
                m.append(decimal_string(width as u64).as_str());
                m.append(") exceeds end bit + 1 (");
                m.append(decimal_string((end + 1) as u64).as_str());
                m.append(")");
                return Err(m);
            }
            Ok((end + 1 - width, end))
        },
    }
}

/// Whether computing the range of the dialog's fields would overflow a
/// `u32` (where `compute_range` and `extract_clicked` may not be called).
pub fn range_overflows(state: &SplitFieldDialogState) -> (r: bool)
    ensures
        r == !state_range_fits(*state),
{
    match state.mode {
        SplitMode::StartEnd => false,
        SplitMode::StartWidth => match (read_field(&state.start_bit_str), read_field(&state.width_str)) {
            (Some(s), Some(w)) => w != 0 && s as u64 + w as u64 > u32::MAX as u64,
            _ => false,
        },
        SplitMode::EndWidth => match (read_field(&state.end_bit_str), read_field(&state.width_str)) {
            (Some(e), Some(w)) => w != 0 && e == u32::MAX,
            _ => false,
        },
    }
}

/// A message that the Split Field dialog sends.
pub enum SplitFieldMessage {
    /// Show bits `[start_bit, end_bit]` of the item at `source_vidx` as a new item.
    ExtractSplitField { source_vidx: VisibleItemIndex, start_bit: u32, end_bit: u32 },
    /// Close the dialog.
    CloseSplitFieldDialog,
}

/// The range that pressing Extract asks for, or the error shown instead.
pub open spec fn extract_outcome(state: SplitFieldDialogState) -> Result<(u32, u32), Seq<char>> {
    match state_range(state) {
        Err(e) => Err(e),
        Ok(range) => range_check(state.total_bits, range.0, range.1),
    }
}

impl SplitFieldDialogState {
    /// Pressing Extract: when the fields name a range of the signal, the
    /// dialog asks for the split field and closes; otherwise it shows why.
    pub fn extract_clicked(&mut self) -> (r: Vec<SplitFieldMessage>)
        requires
            state_range_fits(*old(self)),
        ensures
            match extract_outcome(*old(self)) {
                Ok(range) => {
                    &&& r@ == seq![
                        SplitFieldMessage::ExtractSplitField {
                            source_vidx: old(self).source_vidx,
                            start_bit: range.0,
                            end_bit: range.1,
                        },
                        SplitFieldMessage::CloseSplitFieldDialog,
                    ]
                    &&& *final(self) == *old(self)
                },
                Err(e) => {
                    &&& r@.len() == 0
                    &&& final(self).error matches Some(m) && m@ == e
                    &&& *final(self) == (SplitFieldDialogState { error: final(self).error, ..*old(self) })
                },
            },
    {
        let checked = match compute_range(self) {
            Ok((s, e)) => validate_range(self, s, e),
            Err(e) => Err(e),
        };
        let mut msgs: Vec<SplitFieldMessage> = Vec::new();
        match checked {
            Ok((start, end)) => {
                msgs.push(
                    SplitFieldMessage::ExtractSplitField {
                        source_vidx: self.source_vidx,
                        start_bit: start,
                        end_bit: end,
                    },
                );
                msgs.push(SplitFieldMessage::CloseSplitFieldDialog);
            },
            Err(e) => {
                self.error = Some(e);
            },
        }
        msgs
    }
}

pub open spec fn start_after_end_error(start: u32, end: u32) -> Seq<char> {
    "Start bit ("@ + decimal(start as nat) + ") must be \u{2264} end bit ("@ + decimal(end as nat) + ")"@
}

pub open spec fn end_too_large_error(end: u32, total: u32) -> Seq<char> {
    "End bit ("@ + decimal(end as nat) + ") must be < total bits ("@ + decimal(total as nat) + ")"@
}

/// Whether `[start, end]` is a range of a signal `total_bits` wide (a width of
/// zero stands for an unknown width and admits any range).
pub open spec fn range_check(total_bits: u32, start: u32, end: u32) -> Result<(u32, u32), Seq<char>> {
    if start > end {
        Err(start_after_end_error(start, end))
    } else if total_bits > 0 && end >= total_bits {
        Err(end_too_large_error(end, total_bits))
    } else {
        Ok((start, end))
    }
}

/// Checks that `[start, end]` is a range of the signal of the dialog.
pub fn validate_range(state: &SplitFieldDialogState, start: u32, end: u32) -> (r: Result<(u32, u32), String>)
    ensures
        range_result_view(r) == range_check(state.total_bits, start, end),
{
    if start > end {
        let mut m = message("Start bit (");
        m.append(decimal_string(start as u64).as_str());
        m.append(") must be \u{2264} end bit (");
        m.append(decimal_string(end as u64).as_str());
        m.append(")");
        return Err(m);
    }
    if state.total_bits > 0 && end >= state.total_bits {
        let mut m = message("End bit (");
        m.append(decimal_string(end as u64).as_str());
        m.append(") must be < total bits (");
        m.append(decimal_string(state.total_bits as u64).as_str());
        m.append(")");
        return Err(m);
    }
    Ok((start, end))
}

// ── What the dialog shows ───────────────────────────────────────────────────

impl SplitFieldDialogState {
    /// The line above the fields: `"Signal: {name} ({total_bits} bits, index 0 = LSB)"`.
    pub fn caption(&self) -> (r: String)
        ensures
            r@ == "Signal: "@ + self.source_name@ + " ("@ + decimal(self.total_bits as nat)
                + " bits, index 0 = LSB)"@,
    {
        let mut r = message("Signal: ");
        r.append(self.source_name.as_str());
        r.append(" (");
        r.append(decimal_string(self.total_bits as u64).as_str());
        r.append(" bits, index 0 = LSB)");
        r
    }
}

/// The preview of the range `[start, end]` shown under the fields:
/// `"\u{2192} bits [{end}:{start}], width = {end - start + 1}"`.
pub fn range_preview(start: u32, end: u32) -> (r: String)
    requires
        start <= end,
        end - start < u32::MAX,
    ensures
        r@ == "\u{2192} bits ["@ + decimal(end as nat) + ":"@ + decimal(start as nat) + "], width = "@
            + decimal((end - start + 1) as nat),
{
    let mut r = message("\u{2192} bits [");
    r.append(decimal_string(end as u64).as_str());
    r.append(":");
    r.append(decimal_string(start as u64).as_str());
    r.append("], width = ");
    r.append(decimal_string((end - start + 1) as u64).as_str());
    r
}

// ── Laws ─────────────────────────────────────────────────────────────────────

/// A dialog as `SplitFieldDialogState::new` leaves it asks for the whole
/// signal: Extract gives bits `[0, total_bits - 1]` (`[0, 0]` when the width
/// is unknown), without error.
pub proof fn lemma_new_dialog_selects_whole_signal(state: SplitFieldDialogState)
    requires
        state.mode == SplitMode::StartEnd,
        state.start_bit_str@ == "0"@,
        state.end_bit_str@ == (if state.total_bits > 0 {
            decimal((state.total_bits - 1) as nat)
        } else {
            "0"@
        }),
        state.width_str@ == decimal(state.total_bits as nat),
    ensures
        state_range_fits(state),
        extract_outcome(state) == Ok::<(u32, u32), Seq<char>>(
            (0u32, if state.total_bits > 0 { (state.total_bits - 1) as u32 } else { 0u32 }),
        ),
{
    reveal_strlit("0");
    assert("0"@ =~= decimal(0));
    lemma_parse_decimal(0);
    if state.total_bits > 0 {
        lemma_parse_decimal((state.total_bits - 1) as u32);
    }
}

/// With a width given, the range asked for is exactly that wide.
pub proof fn lemma_range_has_given_width(state: SplitFieldDialogState)
    requires
        state.mode != SplitMode::StartEnd,
        state_range_fits(state),
        state_range(state) is Ok,
    ensures
        ({
            let range = state_range(state)->Ok_0;
            &&& range.0 <= range.1
            &&& field_number(state.width_str@) == Some((range.1 - range.0 + 1) as u32)
        }),
{
}

/// Any range that Extract asks for lies inside the signal.
pub proof fn lemma_extracted_range_inside_signal(state: SplitFieldDialogState)
    requires
        extract_outcome(state) is Ok,
    ensures
        ({
            let range = extract_outcome(state)->Ok_0;
            &&& range.0 <= range.1
            &&& state.total_bits > 0 ==> range.1 < state.total_bits
        }),
{
}

/// The three modes agree: fields that name the bits `[s, e]` by start and
/// end name the same bits by start and width, and by end and width, when the
/// width field holds `e - s + 1`. (An end of `u32::MAX` is left out: the
/// end-and-width mode cannot add one to it.)
pub proof fn lemma_modes_agree(start: Seq<char>, end: Seq<char>, width: Seq<char>)
    requires
        field_number(start) is Some,
        field_number(end) is Some,
        field_number(start)->Some_0 <= field_number(end)->Some_0 < u32::MAX,
        field_number(width) == Some((field_number(end)->Some_0 - field_number(start)->Some_0 + 1) as u32),
    ensures
        ({
            let range = (field_number(start)->Some_0, field_number(end)->Some_0);
            &&& range_of_fields(SplitMode::StartEnd, start, end, width) == Ok::<(u32, u32), Seq<char>>(range)
            &&& range_fits(SplitMode::StartWidth, start, end, width)
            &&& range_of_fields(SplitMode::StartWidth, start, end, width) == Ok::<(u32, u32), Seq<char>>(range)
            &&& range_fits(SplitMode::EndWidth, start, end, width)
            &&& range_of_fields(SplitMode::EndWidth, start, end, width) == Ok::<(u32, u32), Seq<char>>(range)
        }),
{
}

/// Exactly the ranges inside the signal are accepted, and unchanged: a
/// range passes when its start is not above its end and, for a known width,
/// its end is below the width (single bits included).
pub proof fn lemma_range_check_accepts_ranges_inside(total: u32, start: u32, end: u32)
    ensures
        range_check(total, start, end) is Ok <==> (start <= end && (total > 0 ==> end < total)),
        range_check(total, start, end) is Ok ==> range_check(total, start, end) == Ok::<
            (u32, u32),
            Seq<char>,
        >((start, end)),
{
}

} // verus!
