//! The task record: three free-form text fields.

use vstd::prelude::*;

verus! {

/// The mathematical model of a task: the three field values as character
/// sequences.
#[verifier::ext_equal]
pub struct TaskView {
    pub description: Seq<char>,
    pub due_date: Seq<char>,
    pub important: Seq<char>,
}

/// A task record. All three fields are arbitrary, possibly-empty text; none
/// is validated anywhere in the library. In serialized form the fields always
/// appear in the order description, due date, important.
#[derive(Debug, Clone)]
pub struct Task {
    pub description: String,
    pub due_date: String,
    pub important: String,
}

impl DeepView for Task {
    type V = TaskView;

    open spec fn deep_view(&self) -> TaskView {
        TaskView {
            description: self.description@,
            due_date: self.due_date@,
            important: self.important@,
        }
    }
}

impl PartialEq for Task {
    fn eq(&self, other: &Task) -> (r: bool) {
        self.description == other.description && self.due_date == other.due_date
            && self.important == other.important
    }
}

impl vstd::std_specs::cmp::PartialEqSpecImpl for Task {
    open spec fn obeys_eq_spec() -> bool {
        true
    }

    open spec fn eq_spec(&self, other: &Task) -> bool {
        self.deep_view() == other.deep_view()
    }
}

} // verus!
