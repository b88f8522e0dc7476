//! Starting the program: how it was launched, and whether it runs already.

use vstd::prelude::*;
use crate::text;

verus! {

/// Whether one of the arguments asks for a launch in the background.
pub open spec fn asks_for_startup(arguments: Seq<&str>) -> bool {
    exists|i: int| 0 <= i < arguments.len() && (#[trigger] arguments[i])@ == "--startup"@
}

/// The argument counts wherever it stands, and nothing else asks for a launch in
/// the background.
pub proof fn lemma_asks_for_startup(arguments: Seq<&str>, at: int)
    ensures
        0 <= at < arguments.len() && arguments[at]@ == "--startup"@ ==> asks_for_startup(arguments),
        (forall|i: int| 0 <= i < arguments.len() ==> (#[trigger] arguments[i])@ != "--startup"@)
            ==> !asks_for_startup(arguments),
{
}

/// Whether the program was launched at sign-in, in the background.
pub fn is_startup_launch(arguments: &[&str]) -> (r: bool)
    ensures
        r == asks_for_startup(arguments@),
{
    let mut at: usize = 0;
    while at < arguments.len()
        invariant
            at <= arguments@.len(),
            forall|i: int| 0 <= i < at ==> (#[trigger] arguments@[i])@ != "--startup"@,
        decreases arguments@.len() - at,
    {
        if text::same_text(arguments[at], "--startup") {
            assert(arguments@[at as int]@ == "--startup"@);
            return true;
        }
        at = at + 1;
    }
    false
}

/// Whether the window is shown or hidden at first. A launch in the background
/// stays in the tray where there is one; any other launch leaves it as it is.
pub fn startup_window_visibility(startup_launch: bool, tray_available: bool) -> (r: Option<bool>)
    ensures
        r == (if startup_launch {
            Some(!tray_available)
        } else {
            None
        }),
{
    if startup_launch {
        Some(!tray_available)
    } else {
        None
    }
}

/// What a launch leads to.
#[derive(Debug, Clone, Copy, PartialEq, Eq, Structural)]
pub enum LaunchPlan {
    /// This is the only instance.
    Run,
    /// Another one runs: bring its window to the front and leave.
    ShowExisting,
    /// Another one runs, and nobody asked for a window.
    Leave,
}

/// What a launch leads to.
pub fn launch_plan(already_running: bool, startup_launch: bool) -> (r: LaunchPlan)
    ensures
        r is Run <==> !already_running,
        r is ShowExisting <==> already_running && !startup_launch,
        r is Leave <==> already_running && startup_launch,
{
    if !already_running {
        LaunchPlan::Run
    } else if !startup_launch {
        LaunchPlan::ShowExisting
    } else {
        LaunchPlan::Leave
    }
}

/// How often the other instance's window is looked for.
pub const WINDOW_LOOKUP_ATTEMPTS: u32 = 100;

/// What follows a look for the other instance's window.
#[derive(Debug, Clone, Copy, PartialEq, Eq, Structural)]
pub enum WindowLookup {
    /// Restore the window and bring it to the front.
    Show,
    /// Look again after this many milliseconds: it may still be starting.
    Wait(u64),
    /// No window came up.
    GiveUp,
}

/// What follows look number `attempt`, counted from zero.
pub open spec fn after_lookup(attempt: u32, found: bool) -> WindowLookup {
    if attempt >= WINDOW_LOOKUP_ATTEMPTS {
        WindowLookup::GiveUp
    } else if found {
        WindowLookup::Show
    } else {
        WindowLookup::Wait(50)
    }
}

/// A window that comes up within a hundred looks is shown at the look that finds
/// it. Until then there are 50 milliseconds between two looks, and after the
/// last one there are no more.
pub proof fn lemma_lookup(attempt: u32)
    ensures
        attempt < 100 ==> after_lookup(attempt, true) is Show && after_lookup(attempt, false)
            == WindowLookup::Wait(50),
        attempt >= 100 ==> after_lookup(attempt, true) is GiveUp && after_lookup(
            attempt,
            false,
        ) is GiveUp,
{
}

/// What follows look number `attempt`, counted from zero.
pub fn show_existing_window(attempt: u32, found: bool) -> (r: WindowLookup)
    ensures
        r == after_lookup(attempt, found),
{
    if attempt >= WINDOW_LOOKUP_ATTEMPTS {
        WindowLookup::GiveUp
    } else if found {
        WindowLookup::Show
    } else {
        WindowLookup::Wait(50)
    }
}

} // verus!
