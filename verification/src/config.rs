//! The plugin's layout configuration and its validation.

use crate::preset::{all_presets, Preset};
use vstd::prelude::*;

verus! {

/// The pattern of `0.5`, the default main-pane ratio.
pub const DEFAULT_MAIN_RATIO: u32 = 0x3F00_0000;

/// The pattern of `0.1`, the smallest main-pane ratio allowed.
pub const MIN_MAIN_RATIO: u32 = 0x3DCC_CCCD;

/// The pattern of `0.9`, the largest main-pane ratio allowed.
pub const MAX_MAIN_RATIO: u32 = 0x3F66_6666;

/// Layout settings read from `config.json`.
#[derive(Debug)]
pub struct Config {
    /// The presets that `cycle` steps through, in order.
    pub cycle_layouts: Vec<Preset>,
    /// The main pane's share in the main presets, as the bit pattern of its
    /// single-precision value.
    pub main_ratio: u32,
}

/// Whether the pattern's value lies in `0.1..=0.9`: for single-precision
/// patterns of non-negative values, the order of patterns is the order of
/// values, and every negative value and every NaN falls outside this range.
pub open spec fn main_ratio_in_range(bits: u32) -> bool {
    MIN_MAIN_RATIO <= bits <= MAX_MAIN_RATIO
}

/// Why a configuration is invalid, if it is.
pub open spec fn config_problem(cycle: Seq<Preset>, main_ratio: u32) -> Option<Seq<char>> {
    if cycle.len() == 0 {
        Some("layout config cycle_layouts must not be empty"@)
    } else if !cycle.no_duplicates() {
        Some("layout config cycle_layouts must not contain duplicates"@)
    } else if !main_ratio_in_range(main_ratio) {
        Some("layout config main_ratio must be between 0.1 and 0.9"@)
    } else {
        None
    }
}

impl Default for Config {
    fn default() -> (config: Self)
        ensures
            config.cycle_layouts@ == all_presets(),
            config.main_ratio == DEFAULT_MAIN_RATIO,
    {
        Config { cycle_layouts: Preset::all(), main_ratio: DEFAULT_MAIN_RATIO }
    }
}

impl Config {
    /// Checks that the cycle is nonempty and free of repeats and that the
    /// main ratio lies in `0.1..=0.9`.
    ///
    /// # Errors
    ///
    /// Returns the first problem found, in that order.
    pub fn validate(&self) -> (result: Result<(), String>)
        ensures
            match result {
                Ok(()) => config_problem(self.cycle_layouts@, self.main_ratio) is None,
                Err(message) => config_problem(self.cycle_layouts@, self.main_ratio) == Some(
                    message@,
                ),
            },
    {
        let cycle = &self.cycle_layouts;
        if cycle.len() == 0 {
            return Err("layout config cycle_layouts must not be empty".to_owned());
        }
        let mut i: usize = 0;
        while i < cycle.len()
            invariant
                i <= cycle@.len(),
                cycle@ == self.cycle_layouts@,
                cycle@.len() > 0,
                forall|a: int, b: int| 0 <= a < b < i ==> cycle@[a] != cycle@[b],
            decreases cycle@.len() - i,
        {
            let mut j: usize = 0;
            while j < i
                invariant
                    j <= i < cycle@.len(),
                    cycle@ == self.cycle_layouts@,
                    cycle@.len() > 0,
                    forall|b: int| 0 <= b < j ==> cycle@[b] != cycle@[i as int],
                decreases i - j,
            {
                if cycle[j] == cycle[i] {
                    proof {
                        assert(!cycle@.no_duplicates());
                    }
                    return Err("layout config cycle_layouts must not contain duplicates".to_owned());
                }
                j = j + 1;
            }
            i = i + 1;
        }
        if self.main_ratio < MIN_MAIN_RATIO || self.main_ratio > MAX_MAIN_RATIO {
            return Err("layout config main_ratio must be between 0.1 and 0.9".to_owned());
        }
        Ok(())
    }
}

} // verus!
