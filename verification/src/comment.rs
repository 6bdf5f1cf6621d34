//! Comment threads attached to annotations.
use vstd::prelude::*;
use vstd::string::*;

use crate::text::{trim_whitespace, trim_ws};

verus! {

/// One message of a comment thread.
pub struct CommentMessage {
    pub id: u64,
    pub user: String,
    pub text: String,
}

/// A comment thread attached to an annotation. Where it is drawn is kept
/// by the drawing code.
pub struct Comment {
    pub id: u64,
    pub annotation_id: u64,
    pub name: String,
    pub visible: bool,
    /// The number of messages submitted so far, from which message ids come.
    pub message_id_source: u64,
    pub message_chain: Vec<CommentMessage>,
    /// The text being typed.
    pub new_text: String,
    /// A submitted text not yet stored as a message.
    pub save_text: Option<String>,
    /// Whether the thread changed and has to be saved.
    pub change: bool,
}

impl Comment {
    /// An empty, hidden thread for the annotation `annotation_id`.
    pub fn new(id: u64, annotation_id: u64) -> (r: Self)
        ensures
            r.id == id,
            r.annotation_id == annotation_id,
            r.name@ == Seq::<char>::empty(),
            !r.visible,
            r.message_id_source == 0,
            r.message_chain@.len() == 0,
            r.new_text@ == Seq::<char>::empty(),
            r.save_text.is_none(),
            !r.change,
    {
        Comment {
            id,
            annotation_id,
            name: String::new(),
            visible: false,
            message_id_source: 0,
            message_chain: Vec::new(),
            new_text: String::new(),
            save_text: None,
            change: false,
        }
    }

    /// Enter in the text field: a text that is not blank is submitted with
    /// its surrounding whitespace removed; the field is cleared either way.
    pub fn submit_new_text(&mut self)
        requires
            trim_ws(old(self).new_text@).len() > 0 ==> old(self).message_id_source < u64::MAX,
        ensures
            final(self).new_text@ == Seq::<char>::empty(),
            final(self).id == old(self).id,
            final(self).annotation_id == old(self).annotation_id,
            final(self).name == old(self).name,
            final(self).visible == old(self).visible,
            final(self).message_chain == old(self).message_chain,
            if trim_ws(old(self).new_text@).len() > 0 {
                &&& final(self).message_id_source == old(self).message_id_source + 1
                &&& final(self).save_text matches Some(t) && t@ == trim_ws(old(self).new_text@)
                &&& final(self).change
            } else {
                &&& final(self).message_id_source == old(self).message_id_source
                &&& final(self).save_text == old(self).save_text
                &&& final(self).change == old(self).change
            },
    {
        let clean = trim_whitespace(self.new_text.as_str()).to_owned();
        if !clean.as_str().is_empty() {
            self.message_id_source = self.message_id_source + 1;
            self.save_text = Some(clean);
            self.change = true;
        }
        self.new_text = String::new();
    }
}

} // verus!
