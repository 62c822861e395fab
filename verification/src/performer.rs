//! The action performer's plan: the exact, focus-preserving sequence of
//! compositor actions that toggles maximization on a target window.

use vstd::prelude::*;

verus! {

/// One compositor action the engine issues.
#[derive(Debug, PartialEq, Eq, Structural, Clone, Copy)]
pub enum ActionStep {
    /// Focus the window with this id.
    FocusWindow { id: u64 },
    /// Toggle maximization of the column holding the focused window.
    ToggleMaximize,
}

/// The focus-preserving toggle sequence: focus the target unless it is
/// already focused, toggle, then restore the previously focused window if
/// there was one and it was not the target.
pub open spec fn spec_maximize_plan(original_focus: Option<u64>, target: u64) -> Seq<ActionStep> {
    let pre = if original_focus != Some(target) {
        seq![ActionStep::FocusWindow { id: target }]
    } else {
        Seq::empty()
    };
    let post = match original_focus {
        Some(f) => if f != target {
            seq![ActionStep::FocusWindow { id: f }]
        } else {
            Seq::empty()
        },
        None => Seq::empty(),
    };
    pre + seq![ActionStep::ToggleMaximize] + post
}

/// Plan the focus-preserving toggle of `target`, given the window focused
/// before the action (or `None` when focus could not be determined).
pub fn maximize_plan(original_focus: Option<u64>, target: u64) -> (steps: Vec<ActionStep>)
    ensures
        steps@ == spec_maximize_plan(original_focus, target),
{
    let mut steps: Vec<ActionStep> = Vec::new();
    let differs = match original_focus {
        Some(f) => f != target,
        None => true,
    };
    if differs {
        steps.push(ActionStep::FocusWindow { id: target });
    }
    steps.push(ActionStep::ToggleMaximize);
    match original_focus {
        Some(f) => {
            if f != target {
                steps.push(ActionStep::FocusWindow { id: f });
            }
        },
        None => {},
    }
    proof {
        assert(steps@ =~= spec_maximize_plan(original_focus, target));
    }
    steps
}

/// Focus preservation: acting on `b` while `a` is focused gives exactly
/// focus `b`, toggle, re-focus `a`; acting on the focused window itself
/// gives exactly the toggle, with no focus step.
pub proof fn lemma_focus_preserved(a: u64, b: u64)
    ensures
        a != b ==> spec_maximize_plan(Some(a), b) =~= seq![
            ActionStep::FocusWindow { id: b },
            ActionStep::ToggleMaximize,
            ActionStep::FocusWindow { id: a },
        ],
        spec_maximize_plan(Some(b), b) =~= seq![ActionStep::ToggleMaximize],
{
}

} // verus!
