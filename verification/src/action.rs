//! The labels of the edges of an event tree.

use vstd::prelude::*;
use vstd::std_specs::cmp::PartialEqSpecImpl;

verus! {

/// What the player does to move from one node of an event tree to the next.
#[derive(Debug, Hash)]
pub enum Action {
    Continue,
    /// A plain text command.
    Simple(String),
    /// The use of the item with this id.
    UseItem(u16),
}

/// The mathematical value of an [`Action`].
pub enum ActionView {
    Continue,
    Simple(Seq<char>),
    UseItem(u16),
}

impl View for Action {
    type V = ActionView;

    open spec fn view(&self) -> ActionView {
        match *self {
            Action::Continue => ActionView::Continue,
            Action::Simple(s) => ActionView::Simple(s@),
            Action::UseItem(id) => ActionView::UseItem(id),
        }
    }
}

impl Clone for Action {
    fn clone(&self) -> (r: Self)
        ensures
            r@ == self@,
    {
        match self {
            Action::Continue => Action::Continue,
            Action::Simple(s) => Action::Simple(s.clone()),
            Action::UseItem(id) => Action::UseItem(*id),
        }
    }
}

impl PartialEq for Action {
    fn eq(&self, other: &Self) -> (r: bool) {
        match self {
            Action::Continue => match other {
                Action::Continue => true,
                _ => false,
            },
            Action::Simple(a) => match other {
                Action::Simple(b) => *a == *b,
                _ => false,
            },
            Action::UseItem(a) => match other {
                Action::UseItem(b) => *a == *b,
                _ => false,
            },
        }
    }
}

impl PartialEqSpecImpl for Action {
    open spec fn obeys_eq_spec() -> bool {
        true
    }

    open spec fn eq_spec(&self, other: &Self) -> bool {
        self@ == other@
    }
}

impl Eq for Action {

}

} // verus!
