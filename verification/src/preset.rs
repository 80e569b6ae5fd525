//! The named layout presets.

use vstd::prelude::*;

verus! {

/// A tmux-style arrangement of a tab's panes.
#[derive(Clone, Copy, Debug, PartialEq, Eq, Hash, Structural)]
pub enum Preset {
    EvenHorizontal,
    EvenVertical,
    MainHorizontal,
    MainVertical,
    Tiled,
}

/// Every preset, in the default cycle order.
pub open spec fn all_presets() -> Seq<Preset> {
    seq![
        Preset::EvenHorizontal,
        Preset::EvenVertical,
        Preset::MainHorizontal,
        Preset::MainVertical,
        Preset::Tiled,
    ]
}

impl Preset {
    /// Every preset, in the default cycle order.
    pub fn all() -> (presets: Vec<Preset>)
        ensures
            presets@ == all_presets(),
    {
        let presets = vec![
            Preset::EvenHorizontal,
            Preset::EvenVertical,
            Preset::MainHorizontal,
            Preset::MainVertical,
            Preset::Tiled,
        ];
        proof {
            assert(presets@ =~= all_presets());
        }
        presets
    }

    /// The preset's name on the command line and in the configuration.
    pub open spec fn spec_name(self) -> Seq<char> {
        match self {
            Preset::EvenHorizontal => "even-horizontal"@,
            Preset::EvenVertical => "even-vertical"@,
            Preset::MainHorizontal => "main-horizontal"@,
            Preset::MainVertical => "main-vertical"@,
            Preset::Tiled => "tiled"@,
        }
    }

    /// Returns the preset's kebab-case name.
    pub fn name(self) -> (name: &'static str)
        ensures
            name@ == self.spec_name(),
    {
        match self {
            Preset::EvenHorizontal => "even-horizontal",
            Preset::EvenVertical => "even-vertical",
            Preset::MainHorizontal => "main-horizontal",
            Preset::MainVertical => "main-vertical",
            Preset::Tiled => "tiled",
        }
    }
}

} // verus!
