//! The command-line action.

use crate::preset::Preset;
use crate::text::same_text;
use crate::tree::Direction;
use vstd::prelude::*;

verus! {

/// The usage text printed for a missing, unknown or extra argument.
pub open spec fn usage() -> Seq<char> {
    "usage: herdr-tiling <action>\n\nactions:\n  move-left | move-right | move-up | move-down | toggle-split\n  even-horizontal | even-vertical | main-horizontal | main-vertical | tiled | cycle\n  recover"@
}

fn usage_text() -> (text: String)
    ensures
        text@ == usage(),
{
    "usage: herdr-tiling <action>\n\nactions:\n  move-left | move-right | move-up | move-down | toggle-split\n  even-horizontal | even-vertical | main-horizontal | main-vertical | tiled | cycle\n  recover".to_owned()
}

/// One invocation of the plugin.
#[derive(Clone, Copy, Debug, PartialEq, Eq, Structural)]
pub enum Action {
    Move(Direction),
    ToggleSplit,
    Layout(Preset),
    Cycle,
    Recover,
}

/// The action a command-line word names, if any.
pub open spec fn named_action(word: Seq<char>) -> Option<Action> {
    if word == "move-left"@ {
        Some(Action::Move(Direction::Left))
    } else if word == "move-right"@ {
        Some(Action::Move(Direction::Right))
    } else if word == "move-up"@ {
        Some(Action::Move(Direction::Up))
    } else if word == "move-down"@ {
        Some(Action::Move(Direction::Down))
    } else if word == "toggle-split"@ {
        Some(Action::ToggleSplit)
    } else if word == "even-horizontal"@ {
        Some(Action::Layout(Preset::EvenHorizontal))
    } else if word == "even-vertical"@ {
        Some(Action::Layout(Preset::EvenVertical))
    } else if word == "main-horizontal"@ {
        Some(Action::Layout(Preset::MainHorizontal))
    } else if word == "main-vertical"@ {
        Some(Action::Layout(Preset::MainVertical))
    } else if word == "tiled"@ {
        Some(Action::Layout(Preset::Tiled))
    } else if word == "cycle"@ {
        Some(Action::Cycle)
    } else if word == "recover"@ {
        Some(Action::Recover)
    } else {
        None
    }
}

/// The action that exactly one argument names.
pub open spec fn parsed(args: Seq<Seq<char>>) -> Result<Action, Seq<char>> {
    if args.len() != 1 {
        Err(usage())
    } else {
        match named_action(args[0]) {
            Some(action) => Ok(action),
            None => Err(usage()),
        }
    }
}

impl Action {
    /// Parses the arguments after the program name.
    ///
    /// # Errors
    ///
    /// Returns the usage text unless there is exactly one argument and it
    /// names an action.
    pub fn parse(args: Vec<String>) -> (result: Result<Self, String>)
        ensures
            match result {
                Ok(action) => parsed(args.deep_view()) == Ok::<Action, Seq<char>>(action),
                Err(message) => parsed(args.deep_view()) == Err::<Action, Seq<char>>(message@),
            },
    {
        if args.len() != 1 {
            return Err(usage_text());
        }
        let word = args[0].as_str();
        proof {
            assert(args.deep_view()[0] == word@);
        }
        let action = if same_text(word, "move-left") {
            Action::Move(Direction::Left)
        } else if same_text(word, "move-right") {
            Action::Move(Direction::Right)
        } else if same_text(word, "move-up") {
            Action::Move(Direction::Up)
        } else if same_text(word, "move-down") {
            Action::Move(Direction::Down)
        } else if same_text(word, "toggle-split") {
            Action::ToggleSplit
        } else if same_text(word, "even-horizontal") {
            Action::Layout(Preset::EvenHorizontal)
        } else if same_text(word, "even-vertical") {
            Action::Layout(Preset::EvenVertical)
        } else if same_text(word, "main-horizontal") {
            Action::Layout(Preset::MainHorizontal)
        } else if same_text(word, "main-vertical") {
            Action::Layout(Preset::MainVertical)
        } else if same_text(word, "tiled") {
            Action::Layout(Preset::Tiled)
        } else if same_text(word, "cycle") {
            Action::Cycle
        } else if same_text(word, "recover") {
            Action::Recover
        } else {
            return Err(usage_text());
        };
        Ok(action)
    }
}

} // verus!
