//! The order in which Windows is asked to query, check and apply a topology,
//! and what follows from each of its answers.

use vstd::prelude::*;
use vstd::string::*;
use crate::text;

verus! {

pub const SDC_VALIDATE: u32 = 0x40;

pub const SDC_APPLY: u32 = 0x80;

pub const SDC_USE_SUPPLIED_DISPLAY_CONFIG: u32 = 0x20;

pub const SDC_USE_DATABASE_CURRENT: u32 = 0xF;

pub const SDC_SAVE_TO_DATABASE: u32 = 0x200;

pub const SDC_ALLOW_CHANGES: u32 = 0x400;

/// The status of a query whose buffers were too small.
pub const ERROR_INSUFFICIENT_BUFFER: u32 = 122;

// ---------------------------------------------------------------------------
// Applying a layout
// ---------------------------------------------------------------------------

/// The four requests that apply a layout: the paths alone are checked and
/// applied, then the paths with their edited modes.
#[derive(Debug, Clone, Copy, PartialEq, Eq, Structural)]
pub enum ApplyStage {
    CheckTopology,
    ApplyTopology,
    CheckModes,
    ApplyModes,
}

impl ApplyStage {
    /// Whether the request only asks whether Windows would accept the paths.
    pub open spec fn only_checks(self) -> bool {
        self == ApplyStage::CheckTopology || self == ApplyStage::CheckModes
    }

    /// The flags of the request.
    pub open spec fn request_flags(self) -> u32 {
        if self.only_checks() {
            SDC_VALIDATE | SDC_USE_SUPPLIED_DISPLAY_CONFIG | SDC_ALLOW_CHANGES
        } else {
            SDC_APPLY | SDC_USE_SUPPLIED_DISPLAY_CONFIG | SDC_ALLOW_CHANGES | SDC_SAVE_TO_DATABASE
        }
    }

    /// What went wrong where Windows refuses.
    pub open spec fn refusal(self) -> Seq<char> {
        match self {
            ApplyStage::CheckTopology => "Windows rejected the requested monitor topology"@,
            ApplyStage::ApplyTopology => "failed to apply monitor topology"@,
            ApplyStage::CheckModes =>
                "topology was enabled, but Windows rejected its edited position/mode data"@,
            ApplyStage::ApplyModes =>
                "topology was enabled, but applying its edited position/mode data failed"@,
        }
    }

    /// The request that follows where Windows agrees.
    pub open spec fn following(self) -> Option<ApplyStage> {
        match self {
            ApplyStage::CheckTopology => Some(ApplyStage::ApplyTopology),
            ApplyStage::ApplyTopology => Some(ApplyStage::CheckModes),
            ApplyStage::CheckModes => Some(ApplyStage::ApplyModes),
            ApplyStage::ApplyModes => None,
        }
    }

    /// The first request.
    pub fn first() -> (r: ApplyStage)
        ensures
            r == ApplyStage::CheckTopology,
    {
        ApplyStage::CheckTopology
    }

    /// The flags of the request.
    pub fn flags(self) -> (r: u32)
        ensures
            r == self.request_flags(),
    {
        match self {
            ApplyStage::CheckTopology => SDC_VALIDATE | SDC_USE_SUPPLIED_DISPLAY_CONFIG
                | SDC_ALLOW_CHANGES,
            ApplyStage::CheckModes => SDC_VALIDATE | SDC_USE_SUPPLIED_DISPLAY_CONFIG
                | SDC_ALLOW_CHANGES,
            ApplyStage::ApplyTopology => SDC_APPLY | SDC_USE_SUPPLIED_DISPLAY_CONFIG
                | SDC_ALLOW_CHANGES | SDC_SAVE_TO_DATABASE,
            ApplyStage::ApplyModes => SDC_APPLY | SDC_USE_SUPPLIED_DISPLAY_CONFIG
                | SDC_ALLOW_CHANGES | SDC_SAVE_TO_DATABASE,
        }
    }

    /// Whether the request carries the modes of the active paths.
    pub fn carries_modes(self) -> (r: bool)
        ensures
            r == (self == ApplyStage::CheckModes || self == ApplyStage::ApplyModes),
    {
        match self {
            ApplyStage::CheckModes => true,
            ApplyStage::ApplyModes => true,
            _ => false,
        }
    }
}

/// What follows a request: the next one, the end, or a failure that stops
/// everything.
pub fn after_request(stage: ApplyStage, code: i32) -> (r: Result<Option<ApplyStage>, String>)
    ensures
        r is Ok <==> code == 0,
        r matches Ok(next) ==> next == stage.following(),
        r matches Err(message) ==> message@ == stage.refusal() + " (SetDisplayConfig: "@
            + text::signed_decimal(code as int) + ")"@,
{
    if code != 0 {
        let mut message = match stage {
            ApplyStage::CheckTopology =>
                "Windows rejected the requested monitor topology".to_string(),
            ApplyStage::ApplyTopology => "failed to apply monitor topology".to_string(),
            ApplyStage::CheckModes =>
                "topology was enabled, but Windows rejected its edited position/mode data".to_string(),
            ApplyStage::ApplyModes =>
                "topology was enabled, but applying its edited position/mode data failed".to_string(),
        };
        message.append(" (SetDisplayConfig: ");
        message.append(text::signed_decimal_text(code as i64).as_str());
        message.append(")");
        return Err(message);
    }
    Ok(
        match stage {
            ApplyStage::CheckTopology => Some(ApplyStage::ApplyTopology),
            ApplyStage::ApplyTopology => Some(ApplyStage::CheckModes),
            ApplyStage::CheckModes => Some(ApplyStage::ApplyModes),
            ApplyStage::ApplyModes => None,
        },
    )
}

/// How many requests come before a stage.
pub open spec fn requests_before(stage: ApplyStage) -> nat {
    match stage {
        ApplyStage::CheckTopology => 0,
        ApplyStage::ApplyTopology => 1,
        ApplyStage::CheckModes => 2,
        ApplyStage::ApplyModes => 3,
    }
}

/// Nothing is applied that was not checked first: the request before one that
/// applies is the check of the same data, and the stages come to an end.
pub proof fn lemma_checked_before_applied(stage: ApplyStage)
    ensures
        stage.following() matches Some(next) ==> requests_before(next) == requests_before(stage)
            + 1 && (!next.only_checks() ==> stage.only_checks()),
        stage.following() is None ==> !stage.only_checks(),
        stage.only_checks() ==> stage.following() is Some,
{
}

proof fn lemma_flag_sums()
    by (bit_vector)
    ensures
        0x40u32 | 0x20u32 | 0x400u32 == 0x460u32,
        0x80u32 | 0x20u32 | 0x400u32 | 0x200u32 == 0x6A0u32,
{
}

/// The paths are checked, then applied, then the modes are checked, then
/// applied. A check asks whether Windows would take the supplied topology
/// (`0x460`); only the other requests change anything, and have it saved
/// (`0x6A0`).
pub proof fn lemma_request_order()
    ensures
        ApplyStage::CheckTopology.following() == Some(ApplyStage::ApplyTopology),
        ApplyStage::ApplyTopology.following() == Some(ApplyStage::CheckModes),
        ApplyStage::CheckModes.following() == Some(ApplyStage::ApplyModes),
        ApplyStage::ApplyModes.following() is None,
        ApplyStage::CheckTopology.request_flags() == 0x460,
        ApplyStage::CheckModes.request_flags() == 0x460,
        ApplyStage::ApplyTopology.request_flags() == 0x6A0,
        ApplyStage::ApplyModes.request_flags() == 0x6A0,
        ApplyStage::CheckTopology.only_checks() && ApplyStage::CheckModes.only_checks(),
        !ApplyStage::ApplyTopology.only_checks() && !ApplyStage::ApplyModes.only_checks(),
{
    lemma_flag_sums();
}

/// A refusal says what was refused and whether the topology is already on.
pub proof fn lemma_refusals()
    ensures
        ApplyStage::CheckTopology.refusal() == "Windows rejected the requested monitor topology"@,
        ApplyStage::ApplyTopology.refusal() == "failed to apply monitor topology"@,
        ApplyStage::CheckModes.refusal()
            == "topology was enabled, but Windows rejected its edited position/mode data"@,
        ApplyStage::ApplyModes.refusal()
            == "topology was enabled, but applying its edited position/mode data failed"@,
{
}

/// A query is tried five times, and the displays are looked at four times; the
/// status that has a query repeated is that of a buffer that was too small.
pub proof fn lemma_attempts()
    ensures
        QUERY_ATTEMPTS == 5,
        PROBE_ATTEMPTS == 4,
        ERROR_INSUFFICIENT_BUFFER == 122,
        SDC_APPLY == 0x80 && SDC_USE_DATABASE_CURRENT == 0xF && SDC_ALLOW_CHANGES == 0x400,
{
}

// ---------------------------------------------------------------------------
// Querying
// ---------------------------------------------------------------------------

/// How often a query is tried.
pub const QUERY_ATTEMPTS: u32 = 5;

/// What follows an answer to a query.
#[derive(Debug)]
pub enum QueryStep {
    /// The buffers hold the answer.
    Accept,
    /// The topology changed in between: ask for the sizes again.
    Retry,
    /// There is no answer.
    Fail(String),
}

/// What the user reads where the sizes cannot be had.
pub fn buffer_size_failure(code: u32) -> (r: Option<String>)
    ensures
        r is Some <==> code != 0,
        r matches Some(message) ==> message@ == "GetDisplayConfigBufferSizes failed: "@
            + text::decimal(code as nat),
{
    if code == 0 {
        None
    } else {
        let mut message = "GetDisplayConfigBufferSizes failed: ".to_string();
        message.append(text::decimal_text(code as u64).as_str());
        Some(message)
    }
}

/// What follows the answer to query number `attempt`, counted from zero.
pub fn after_query(attempt: u32, code: u32) -> (r: QueryStep)
    ensures
        code == 0 ==> r is Accept,
        code == ERROR_INSUFFICIENT_BUFFER && attempt + 1 < QUERY_ATTEMPTS ==> r is Retry,
        code == ERROR_INSUFFICIENT_BUFFER && attempt + 1 >= QUERY_ATTEMPTS ==> (
        r matches QueryStep::Fail(message) && message@
            == "display topology kept changing while it was being queried"@),
        code != 0 && code != ERROR_INSUFFICIENT_BUFFER ==> (r matches QueryStep::Fail(message)
            && message@ == "QueryDisplayConfig failed: "@ + text::decimal(code as nat)),
{
    if code == ERROR_INSUFFICIENT_BUFFER {
        if attempt < QUERY_ATTEMPTS - 1 {
            QueryStep::Retry
        } else {
            QueryStep::Fail(
                "display topology kept changing while it was being queried".to_string(),
            )
        }
    } else if code != 0 {
        let mut message = "QueryDisplayConfig failed: ".to_string();
        message.append(text::decimal_text(code as u64).as_str());
        QueryStep::Fail(message)
    } else {
        QueryStep::Accept
    }
}

// ---------------------------------------------------------------------------
// Startup recovery
// ---------------------------------------------------------------------------

/// How often the active displays are looked at before anything is concluded.
pub const PROBE_ATTEMPTS: u32 = 4;

/// Whether no active path leads to a connected monitor.
pub open spec fn nothing_visible(availability: Seq<bool>) -> bool {
    forall|i: int| 0 <= i < availability.len() ==> !#[trigger] availability[i]
}

/// Whether no active path leads to a connected monitor.
pub fn topology_state_needs_recovery(active_target_availability: &[bool]) -> (r: bool)
    ensures
        r == nothing_visible(active_target_availability@),
{
    let mut index: usize = 0;
    while index < active_target_availability.len()
        invariant
            index <= active_target_availability@.len(),
            forall|i: int| 0 <= i < index ==> !#[trigger] active_target_availability@[i],
        decreases active_target_availability@.len() - index,
    {
        if active_target_availability[index] {
            return false;
        }
        index = index + 1;
    }
    true
}

/// What follows a look at the active displays during startup.
#[derive(Debug, Clone, Copy, PartialEq, Eq, Structural)]
pub enum RecoveryStep {
    /// A display is visible.
    Healthy,
    /// Look again after this many milliseconds: monitors may still be waking.
    Wait(u64),
    /// No display came up.
    Needed,
}

/// What follows look number `attempt`, counted from zero.
pub open spec fn after_look(attempt: int, availability: Seq<bool>) -> RecoveryStep {
    if !nothing_visible(availability) {
        RecoveryStep::Healthy
    } else if attempt + 1 < PROBE_ATTEMPTS {
        RecoveryStep::Wait(250)
    } else {
        RecoveryStep::Needed
    }
}

/// What follows look number `attempt`, counted from zero.
pub fn recovery_step(attempt: u32, availability: &[bool]) -> (r: RecoveryStep)
    ensures
        r == after_look(attempt as int, availability@),
{
    if !topology_state_needs_recovery(availability) {
        RecoveryStep::Healthy
    } else if attempt < PROBE_ATTEMPTS - 1 {
        RecoveryStep::Wait(250)
    } else {
        RecoveryStep::Needed
    }
}

/// What comes of a series of looks, starting with number `attempt`: whether
/// recovery is needed, or nothing while the series is too short to tell.
pub open spec fn recovery_verdict(looks: Seq<Seq<bool>>, attempt: nat) -> Option<bool>
    decreases looks.len(),
{
    if looks.len() == 0 {
        None
    } else {
        match after_look(attempt as int, looks[0]) {
            RecoveryStep::Healthy => Some(false),
            RecoveryStep::Wait(_) => recovery_verdict(looks.skip(1), attempt + 1),
            RecoveryStep::Needed => Some(true),
        }
    }
}

/// Between two looks there is a quarter of a second, and the last of four looks
/// always settles it.
pub proof fn lemma_looks_end(attempt: int, availability: Seq<bool>)
    ensures
        after_look(attempt, availability) matches RecoveryStep::Wait(pause) ==> pause == 250
            && attempt < 3,
        attempt >= 3 ==> !(after_look(attempt, availability) is Wait),
{
}

/// Recovery is called for exactly where four looks in a row show nothing.
pub proof fn lemma_recovery_verdict(looks: Seq<Seq<bool>>)
    requires
        looks.len() == 4,
    ensures
        recovery_verdict(looks, 0) == Some(
            forall|i: int| 0 <= i < 4 ==> nothing_visible(#[trigger] looks[i]),
        ),
{
    reveal_with_fuel(recovery_verdict, 5);
    assert(looks.skip(1)[0] == looks[1]);
    assert(looks.skip(1).skip(1)[0] == looks[2]);
    assert(looks.skip(1).skip(1).skip(1)[0] == looks[3]);
    if recovery_verdict(looks, 0) == Some(true) {
        assert forall|i: int| 0 <= i < 4 implies nothing_visible(#[trigger] looks[i]) by {}
    }
}

/// A single monitor that can be seen settles a look, and so does any look that
/// shows one: the looks after it do not count.
pub proof fn lemma_one_visible_is_enough(looks: Seq<Seq<bool>>, look: int, at: int)
    requires
        0 <= look < looks.len(),
        look < 4,
        0 <= at < looks[look].len(),
        looks[look][at],
    ensures
        !nothing_visible(looks[look]),
        recovery_verdict(looks, 0) == Some(false),
{
    reveal_with_fuel(recovery_verdict, 5);
    assert(!nothing_visible(looks[look]));
    assert(looks.len() > 1 ==> looks.skip(1)[0] == looks[1]);
    assert(looks.len() > 2 ==> looks.skip(1).skip(1)[0] == looks[2]);
    assert(looks.len() > 3 ==> looks.skip(1).skip(1).skip(1)[0] == looks[3]);
}

/// A look that shows no path to a connected monitor shows nothing.
pub proof fn lemma_nothing_visible(availability: Seq<bool>)
    ensures
        nothing_visible(availability) <==> !availability.contains(true),
{
    if nothing_visible(availability) && availability.contains(true) {
        let i = choose|i: int| 0 <= i < availability.len() && availability[i];
        assert(!availability[i]);
    }
    if !availability.contains(true) {
        assert forall|i: int| 0 <= i < availability.len() implies !#[trigger] availability[i] by {
            assert(availability.contains(availability[i]));
        }
    }
}

/// What follows a look after Windows was asked to restore a topology.
#[derive(Debug)]
pub enum RestoreStep {
    /// A display is visible.
    Restored,
    /// Look again after this many milliseconds.
    Wait(u64),
    /// Nothing came up.
    Fail(String),
}

/// The flags that ask for the last topology that fits what is connected.
pub fn restore_flags() -> (r: u32)
    ensures
        r == SDC_APPLY | SDC_USE_DATABASE_CURRENT | SDC_ALLOW_CHANGES,
{
    SDC_APPLY | SDC_USE_DATABASE_CURRENT | SDC_ALLOW_CHANGES
}

/// What the user reads where Windows refuses to restore a topology.
pub fn restore_refusal(code: i32) -> (r: Option<String>)
    ensures
        r is Some <==> code != 0,
        r matches Some(message) ==> message@
            == "Windows could not restore a topology for the currently connected monitors (SetDisplayConfig: "@
            + text::signed_decimal(code as int) + ")"@,
{
    if code == 0 {
        None
    } else {
        let mut message =
            "Windows could not restore a topology for the currently connected monitors (SetDisplayConfig: ".to_string();
        message.append(text::signed_decimal_text(code as i64).as_str());
        message.append(")");
        Some(message)
    }
}

/// What follows look number `attempt` after a restore, counted from zero.
pub fn restore_step(attempt: u32, availability: &[bool]) -> (r: RestoreStep)
    ensures
        r is Restored <==> !nothing_visible(availability@),
        nothing_visible(availability@) && attempt + 1 < PROBE_ATTEMPTS ==> (
        r matches RestoreStep::Wait(pause) && pause == 100),
        nothing_visible(availability@) && attempt + 1 >= PROBE_ATTEMPTS ==> (
        r matches RestoreStep::Fail(message) && message@
            == "Windows reported success but still has no available active display"@),
{
    if !topology_state_needs_recovery(availability) {
        RestoreStep::Restored
    } else if attempt < PROBE_ATTEMPTS - 1 {
        RestoreStep::Wait(100)
    } else {
        RestoreStep::Fail(
            "Windows reported success but still has no available active display".to_string(),
        )
    }
}

} // verus!
