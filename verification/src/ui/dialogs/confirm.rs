//! A yes / no / cancel question.
use vstd::prelude::*;

verus! {

pub struct ConfirmDialogState {
    pub title: String,
    pub message: String,
}

impl ConfirmDialogState {
    pub fn new(title: &str, message: &str) -> (s: Self)
        ensures
            s.title@ == title@,
            s.message@ == message@,
    {
        ConfirmDialogState { title: String::from_str(title), message: String::from_str(message) }
    }
}

} // verus!
