//! What a fence shows.

use vstd::prelude::*;

verus! {

/// One thing in a fence's folder.
#[derive(Clone)]
pub struct Entry {
    pub path: String,
    pub name: String,
    pub is_dir: bool,
}

/// What a fence shows: its entries, which page of them, and which is selected.
pub struct FenceModel {
    pub entries: Vec<Entry>,
    /// From 0; the wheel turns whole pages.
    pub page: usize,
    /// The entry that Delete moves to the recycle bin.
    pub selected: Option<usize>,
}

impl Default for FenceModel {
    fn default() -> (model: Self)
        ensures
            model.entries@.len() == 0,
            model.page == 0,
            model.selected is None,
    {
        FenceModel { entries: Vec::new(), page: 0, selected: None }
    }
}

} // verus!
