//! Verified core of the Surfer waveform viewer's annotation, split-field and
//! variable-filter logic.
use vstd::prelude::*;

pub mod annotation;
pub mod bignum;
pub mod comment;
pub mod file_dialog;
pub mod find_value;
pub mod gesture;
pub mod split_field;
pub mod text;
pub mod value;
pub mod variable_filter;
pub mod wave;

verus! {

/// Index of an item in the list of visible items.
#[derive(Debug, Clone, Copy, PartialEq, Eq, Structural)]
pub struct VisibleItemIndex(pub usize);

} // verus!
