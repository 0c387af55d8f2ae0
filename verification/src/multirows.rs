//! Multi-row banding mode: how many leaves' worth of columns stack on one
//! physical page, and whether the split is per leaf or per page.

use vstd::prelude::*;

verus! {

/// Governs how a slot index maps to a physical band offset.
#[derive(Debug, Clone, Copy, PartialEq, Eq, Structural)]
pub enum MultiRowsMode {
    /// One band: the page is a single leaf.
    Disabled,
    /// `rows` bands, the half-leaf split repeating inside every band.
    HorizontalLeaf { rows: usize },
    /// `rows` bands, the left half of every band enumerated before any
    /// right half: a page-level split.
    HorizontalPage { rows: usize },
}

impl MultiRowsMode {
    /// The number of bands this mode stacks on one page.
    pub open spec fn bands(self) -> nat {
        match self {
            MultiRowsMode::Disabled => 1,
            MultiRowsMode::HorizontalLeaf { rows } => rows as nat,
            MultiRowsMode::HorizontalPage { rows } => rows as nat,
        }
    }

    /// Selects the banding mode from the canvas enable flag, the configured
    /// band count, and the book's horizontal layout selector (2 asks for the
    /// page-level split, anything else for the leaf-level one).
    pub fn from_flags(enabled: bool, count: usize, layout_flag: usize) -> (r: Self)
        ensures
            r == (if !enabled || count <= 1 {
                MultiRowsMode::Disabled
            } else if layout_flag == 2 {
                MultiRowsMode::HorizontalPage { rows: count }
            } else {
                MultiRowsMode::HorizontalLeaf { rows: count }
            }),
    {
        if !enabled || count <= 1 {
            return MultiRowsMode::Disabled;
        }
        match layout_flag {
            2 => MultiRowsMode::HorizontalPage { rows: count },
            _ => MultiRowsMode::HorizontalLeaf { rows: count },
        }
    }
}

} // verus!
