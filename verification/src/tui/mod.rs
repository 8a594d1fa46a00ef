pub mod browse;
pub mod app;
pub mod filter;
pub mod input;
pub mod overlay;
pub mod text;
pub mod views;
pub mod widgets;

use vstd::prelude::*;

verus! {

/// The visualisation shown in the main area.
#[derive(Debug, Clone, Copy, PartialEq, Eq, Structural)]
pub enum ViewMode {
    Tree,
    Treemap,
    Bar,
}

impl ViewMode {
    /// The tab label of the view.
    pub fn label(self) -> (r: &'static str)
        ensures
            r@ == match self {
                ViewMode::Tree => "Tree"@,
                ViewMode::Treemap => "Map"@,
                ViewMode::Bar => "Bar"@,
            },
    {
        match self {
            ViewMode::Tree => "Tree",
            ViewMode::Treemap => "Map",
            ViewMode::Bar => "Bar",
        }
    }

    /// The key that switches to the view.
    pub fn key(self) -> (c: char)
        ensures
            c == match self {
                ViewMode::Tree => '1',
                ViewMode::Treemap => '2',
                ViewMode::Bar => '3',
            },
    {
        match self {
            ViewMode::Tree => '1',
            ViewMode::Treemap => '2',
            ViewMode::Bar => '3',
        }
    }

    /// Every view, in tab order.
    pub fn all() -> (v: [ViewMode; 3])
        ensures
            v@ == seq![ViewMode::Tree, ViewMode::Treemap, ViewMode::Bar],
    {
        [ViewMode::Tree, ViewMode::Treemap, ViewMode::Bar]
    }
}

} // verus!
