//! The recovery journal that a rebuild keeps while it runs.

use crate::tree::{Layout, LayoutView};
use vstd::prelude::*;

verus! {

/// What survives an interrupted rebuild: the tree to restore, the pane that
/// anchors the original tab, and how many plan commands completed.
#[derive(Debug, PartialEq)]
pub struct Journal {
    pub original: Layout,
    pub active_anchor: String,
    pub completed_step: usize,
}

/// The mathematical value of a [`Journal`].
pub struct JournalView {
    pub original: LayoutView,
    pub active_anchor: Seq<char>,
    pub completed_step: nat,
}

impl View for Journal {
    type V = JournalView;

    open spec fn view(&self) -> JournalView {
        JournalView {
            original: self.original@,
            active_anchor: self.active_anchor@,
            completed_step: self.completed_step as nat,
        }
    }
}

impl Journal {
    /// Returns a copy equal in every field.
    pub fn copy(&self) -> (copy: Journal)
        ensures
            copy@ == self@,
    {
        Journal {
            original: self.original.copy(),
            active_anchor: self.active_anchor.clone(),
            completed_step: self.completed_step,
        }
    }
}

} // verus!
