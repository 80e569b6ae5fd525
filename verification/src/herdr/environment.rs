//! The environment variables each action needs from Herdr.

use crate::action::Action;
use crate::text::{join3, same_text};
use vstd::prelude::*;

verus! {

/// The variables an action needs, in the order they are checked.
pub open spec fn required_variables(action: Action) -> Seq<Seq<char>> {
    let base = seq!["HERDR_SOCKET_PATH"@, "HERDR_PLUGIN_STATE_DIR"@];
    match action {
        Action::Recover => base,
        Action::Move(_) | Action::ToggleSplit => base.push("HERDR_PANE_ID"@),
        Action::Layout(_) | Action::Cycle => base + seq![
            "HERDR_TAB_ID"@,
            "HERDR_PLUGIN_CONFIG_DIR"@,
        ],
    }
}

fn required_names(action: &Action) -> (names: Vec<&'static str>)
    ensures
        names@.map_values(|name: &str| name@) == required_variables(*action),
{
    let mut names = vec!["HERDR_SOCKET_PATH", "HERDR_PLUGIN_STATE_DIR"];
    match action {
        Action::Recover => {},
        Action::Move(_) | Action::ToggleSplit => names.push("HERDR_PANE_ID"),
        Action::Layout(_) | Action::Cycle => {
            names.push("HERDR_TAB_ID");
            names.push("HERDR_PLUGIN_CONFIG_DIR");
        },
    }
    proof {
        assert(names@.map_values(|name: &str| name@) =~= required_variables(*action));
    }
    names
}

/// The value of the first entry named `name`, if any.
pub open spec fn value_of(variables: Seq<(Seq<char>, Seq<char>)>, name: Seq<char>, n: nat) -> Option<
    Seq<char>,
>
    decreases n,
{
    if n == 0 {
        None
    } else {
        match value_of(variables, name, (n - 1) as nat) {
            Some(value) => Some(value),
            None => if variables[n - 1].0 == name {
                Some(variables[n - 1].1)
            } else {
                None
            },
        }
    }
}

/// Whether `name` is set to a nonempty value.
pub open spec fn is_set(variables: Seq<(Seq<char>, Seq<char>)>, name: Seq<char>) -> bool {
    value_of(variables, name, variables.len()) matches Some(value) && value.len() > 0
}

/// The first of the first `n` names that is not set, if any.
pub open spec fn first_missing(
    variables: Seq<(Seq<char>, Seq<char>)>,
    names: Seq<Seq<char>>,
    n: nat,
) -> Option<Seq<char>>
    decreases n,
{
    if n == 0 {
        None
    } else {
        match first_missing(variables, names, (n - 1) as nat) {
            Some(name) => Some(name),
            None => if is_set(variables, names[n - 1]) {
                None
            } else {
                Some(names[n - 1])
            },
        }
    }
}

/// The message for a missing variable.
pub open spec fn missing_message(name: Seq<char>) -> Seq<char> {
    "required environment variable "@ + name + " is missing"@
}

/// The value of an environment snapshot: names and values as text.
pub open spec fn snapshot(variables: Seq<(String, String)>) -> Seq<(Seq<char>, Seq<char>)> {
    variables.map_values(|entry: (String, String)| (entry.0@, entry.1@))
}

fn is_set_exec(variables: &Vec<(String, String)>, name: &str) -> (set: bool)
    ensures
        set == is_set(snapshot(variables@), name@),
{
    let ghost vars = snapshot(variables@);
    let mut i: usize = 0;
    while i < variables.len()
        invariant
            i <= variables@.len(),
            vars == snapshot(variables@),
            value_of(vars, name@, i as nat) is None,
        decreases variables@.len() - i,
    {
        proof {
            assert(vars[i as int] == (variables@[i as int].0@, variables@[i as int].1@));
        }
        if same_text(variables[i].0.as_str(), name) {
            proof {
                lemma_value_stable(vars, name@, (i + 1) as nat, vars.len());
            }
            return !variables[i].1.as_str().is_empty();
        }
        i = i + 1;
    }
    false
}

proof fn lemma_value_stable(
    variables: Seq<(Seq<char>, Seq<char>)>,
    name: Seq<char>,
    n: nat,
    m: nat,
)
    requires
        n <= m,
        value_of(variables, name, n) is Some,
    ensures
        value_of(variables, name, m) == value_of(variables, name, n),
    decreases m - n,
{
    if n < m {
        lemma_value_stable(variables, name, n, (m - 1) as nat);
    }
}

/// Checks that every variable `action` needs is set to a nonempty value,
/// given a snapshot of the environment.
///
/// # Errors
///
/// Names the first missing variable.
pub fn validate_with(action: &Action, variables: &Vec<(String, String)>) -> (result: Result<(), String>)
    ensures
        match result {
            Ok(()) => first_missing(
                snapshot(variables@),
                required_variables(*action),
                required_variables(*action).len(),
            ) is None,
            Err(message) => first_missing(
                snapshot(variables@),
                required_variables(*action),
                required_variables(*action).len(),
            ) matches Some(name) && message@ == missing_message(name),
        },
{
    let names = required_names(action);
    let ghost wanted = required_variables(*action);
    let mut i: usize = 0;
    while i < names.len()
        invariant
            i <= names@.len(),
            wanted == names@.map_values(|name: &str| name@),
            wanted == required_variables(*action),
            first_missing(snapshot(variables@), wanted, i as nat) is None,
        decreases names@.len() - i,
    {
        let name = names[i];
        proof {
            assert(wanted[i as int] == name@);
        }
        if !is_set_exec(variables, name) {
            proof {
                assert(first_missing(snapshot(variables@), wanted, (i + 1) as nat) == Some(name@));
                lemma_missing_stable(snapshot(variables@), wanted, (i + 1) as nat, wanted.len());
                assert(wanted == required_variables(*action));
            }
            return Err(join3("required environment variable ", name, " is missing"));
        }
        i = i + 1;
    }
    Ok(())
}

proof fn lemma_missing_stable(
    variables: Seq<(Seq<char>, Seq<char>)>,
    names: Seq<Seq<char>>,
    n: nat,
    m: nat,
)
    requires
        n <= m,
        first_missing(variables, names, n) is Some,
    ensures
        first_missing(variables, names, m) == first_missing(variables, names, n),
    decreases m - n,
{
    if n < m {
        lemma_missing_stable(variables, names, n, (m - 1) as nat);
    }
}

} // verus!
