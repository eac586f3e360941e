//! How results are ranked and shown.

use vstd::prelude::*;

verus! {

/// By what the best of the offered items is picked.
#[derive(Debug, Clone, Copy, PartialEq, Eq, Structural)]
pub enum BestItemMode {
    Combined,
    Platinum,
    Ducats,
    Volatility,
}

/// How much is shown of each item.
#[derive(Debug, Clone, Copy, PartialEq, Eq, Structural)]
pub enum InfoDisplayMode {
    Minimal,
    Combined,
    All,
}

impl Default for BestItemMode {
    fn default() -> (mode: BestItemMode)
        ensures
            mode == BestItemMode::Combined,
    {
        BestItemMode::Combined
    }
}

impl Default for InfoDisplayMode {
    fn default() -> (mode: InfoDisplayMode)
        ensures
            mode == InfoDisplayMode::Minimal,
    {
        InfoDisplayMode::Minimal
    }
}

} // verus!
