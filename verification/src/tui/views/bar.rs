use vstd::prelude::*;

verus! {

/// Selection state of the bar chart list: the highlighted row, if any.
#[derive(Debug, Clone, Copy, PartialEq, Eq, Structural)]
pub struct BarState {
    pub selected: Option<usize>,
}

impl BarState {
    /// The first row starts highlighted.
    pub fn new() -> (s: Self)
        ensures
            s.selected == Some(0usize),
    {
        BarState { selected: Some(0) }
    }

    /// Highlight row `selected`.
    pub fn sync_selection(&mut self, selected: usize)
        ensures
            final(self).selected == Some(selected),
    {
        self.selected = Some(selected);
    }

    /// Highlight nothing.
    pub fn clear_selection(&mut self)
        ensures
            final(self).selected is None,
    {
        self.selected = None;
    }
}

} // verus!
