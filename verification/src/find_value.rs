//! The Find Value dialog: searching a signal for a value and stepping
//! through its occurrences.
use vstd::prelude::*;
use vstd::string::*;

use crate::bignum::SignedBigInt;
use crate::text::{decimal, decimal_string};
use crate::VisibleItemIndex;

verus! {

/// State for the Find Value dialog.
pub struct FindValueState {
    /// The item searched.
    pub vidx: VisibleItemIndex,
    /// The value typed in.
    pub search_input: String,
    /// The times at which the value occurs.
    pub occurrences: Vec<SignedBigInt>,
    /// The occurrence shown, if any.
    pub current_idx: Option<usize>,
    /// Whether the last search found nothing.
    pub not_found: bool,
}

/// A message that the Find Value dialog sends.
pub enum FindValueMessage {
    FindValueSearch(String),
    FindValuePrevious,
    FindValueNext,
    CloseFindValueDialog,
}

/// What the user did in the dialog during one frame.
pub struct FindValueInput {
    pub find_clicked: bool,
    /// Enter was pressed as the value field lost focus.
    pub enter_pressed: bool,
    pub previous_clicked: bool,
    pub next_clicked: bool,
    pub exit_clicked: bool,
    /// The window is still open (its close button was not pressed).
    pub open: bool,
}

/// The messages of one frame of the dialog, as tags: 0 search, 1 previous,
/// 2 next, 3 close.
pub open spec fn dialog_tags(has_results: bool, input: FindValueInput) -> Seq<nat> {
    (if input.find_clicked || input.enter_pressed { seq![0nat] } else { Seq::empty() })
        + (if has_results && input.previous_clicked { seq![1nat] } else { Seq::empty() })
        + (if has_results && input.next_clicked { seq![2nat] } else { Seq::empty() })
        + (if input.exit_clicked { seq![3nat] } else { Seq::empty() })
        + (if !input.open { seq![3nat] } else { Seq::empty() })
}

pub open spec fn message_tag(m: FindValueMessage) -> nat {
    match m {
        FindValueMessage::FindValueSearch(_) => 0,
        FindValueMessage::FindValuePrevious => 1,
        FindValueMessage::FindValueNext => 2,
        FindValueMessage::CloseFindValueDialog => 3,
    }
}

impl FindValueState {
    /// An empty dialog for the item at `vidx`.
    pub fn new(vidx: VisibleItemIndex) -> (r: Self)
        ensures
            r.vidx == vidx,
            r.search_input@ == Seq::<char>::empty(),
            r.occurrences@.len() == 0,
            r.current_idx.is_none(),
            !r.not_found,
    {
        FindValueState {
            vidx,
            search_input: String::new(),
            occurrences: Vec::new(),
            current_idx: None,
            not_found: false,
        }
    }

    /// The line `"{n} / {total} occurrences"` shown while an occurrence is
    /// selected, counting from one.
    pub fn occurrence_label(&self) -> (r: Option<String>)
        requires
            self.current_idx matches Some(idx) ==> idx < usize::MAX,
        ensures
            match self.current_idx {
                Some(idx) => r matches Some(s) && s@ == decimal((idx + 1) as nat) + " / "@ + decimal(
                    self.occurrences@.len(),
                ) + " occurrences"@,
                None => r.is_none(),
            },
    {
        match self.current_idx {
            Some(idx) => {
                let mut s = decimal_string((idx + 1) as u64);
                s.append(" / ");
                s.append(decimal_string(self.occurrences.len() as u64).as_str());
                s.append(" occurrences");
                Some(s)
            },
            None => None,
        }
    }

    /// The messages of one frame of the dialog: a search for the typed value
    /// when Find is clicked or Enter pressed, a step back or forward when
    /// there are occurrences to step through, and a close on Exit or when
    /// the window is closed.
    pub fn dialog_messages(&self, input: FindValueInput) -> (r: Vec<FindValueMessage>)
        ensures
            r@.map_values(|m: FindValueMessage| message_tag(m)) == dialog_tags(
                self.occurrences@.len() > 0,
                input,
            ),
            forall|i: int|
                0 <= i < r@.len() ==> (#[trigger] r@[i] matches FindValueMessage::FindValueSearch(s)
                    ==> s@ == self.search_input@),
    {
        let mut msgs: Vec<FindValueMessage> = Vec::new();
        let has_results = self.occurrences.len() > 0;
        if input.find_clicked || input.enter_pressed {
            msgs.push(FindValueMessage::FindValueSearch(self.search_input.clone()));
        }
        if has_results && input.previous_clicked {
            msgs.push(FindValueMessage::FindValuePrevious);
        }
        if has_results && input.next_clicked {
            msgs.push(FindValueMessage::FindValueNext);
        }
        if input.exit_clicked {
            msgs.push(FindValueMessage::CloseFindValueDialog);
        }
        if !input.open {
            msgs.push(FindValueMessage::CloseFindValueDialog);
        }
        assert(msgs@.map_values(|m: FindValueMessage| message_tag(m)) =~= dialog_tags(
            has_results,
            input,
        ));
        msgs
    }
}

} // verus!
