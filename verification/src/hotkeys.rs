//! Global keyboard shortcuts: which to register, and which layout one calls for.

use vstd::prelude::*;
use vstd::string::*;
use std::collections::VecDeque;
use crate::model::HotkeyBinding;
use crate::model;
use crate::order;

verus! {

pub const MOD_ALT: u32 = 0x1;

pub const MOD_CONTROL: u32 = 0x2;

pub const MOD_SHIFT: u32 = 0x4;

pub const MOD_WIN: u32 = 0x8;

pub const MOD_NOREPEAT: u32 = 0x4000;

/// The id of the first shortcut.
pub const FIRST_ID: i32 = 0x4D00;

/// How many shortcuts there can be before the ids run out.
pub const MOST_SPECS: usize = 0x7FFF_0000;

// ---------------------------------------------------------------------------
// What is handed in and out
// ---------------------------------------------------------------------------

/// A shortcut and the layout that it calls for.
#[derive(Debug, Clone, Copy, PartialEq, Eq, Structural)]
pub struct HotkeySpec {
    pub layout_index: usize,
    pub binding: HotkeyBinding,
}

/// A shortcut that could not be registered.
#[derive(Debug)]
pub struct HotkeyRegistrationFailure {
    pub layout_index: usize,
    pub binding: HotkeyBinding,
    pub reason: String,
}

/// The contents of a [`HotkeyRegistrationFailure`].
#[verifier::ext_equal]
pub struct FailureView {
    pub layout_index: usize,
    pub binding: HotkeyBinding,
    pub reason: Seq<char>,
}

impl View for HotkeyRegistrationFailure {
    type V = FailureView;

    open spec fn view(&self) -> FailureView {
        FailureView {
            layout_index: self.layout_index,
            binding: self.binding,
            reason: self.reason@,
        }
    }
}

/// What the shortcuts have to tell.
#[derive(Debug)]
pub enum HotkeyEvent {
    Triggered(usize),
    RegistrationFinished(Vec<HotkeyRegistrationFailure>),
}

/// The contents of a [`HotkeyEvent`].
#[verifier::ext_equal]
pub enum HotkeyEventView {
    Triggered(usize),
    RegistrationFinished(Seq<FailureView>),
}

impl View for HotkeyEvent {
    type V = HotkeyEventView;

    open spec fn view(&self) -> HotkeyEventView {
        match self {
            HotkeyEvent::Triggered(layout_index) => HotkeyEventView::Triggered(*layout_index),
            HotkeyEvent::RegistrationFinished(failures) => HotkeyEventView::RegistrationFinished(
                order::views(failures@),
            ),
        }
    }
}

/// What Windows is asked for: a shortcut with its modifiers and key.
#[derive(Debug, Clone, Copy, PartialEq, Eq, Structural)]
pub struct Registration {
    pub id: i32,
    pub modifiers: u32,
    pub key: u32,
}

// ---------------------------------------------------------------------------
// Registering
// ---------------------------------------------------------------------------

/// The modifiers of a shortcut as Windows numbers them; holding it down does
/// not repeat it.
pub open spec fn modifier_bits(binding: HotkeyBinding) -> u32 {
    let repeat = MOD_NOREPEAT;
    let ctrl = if binding.ctrl {
        repeat | MOD_CONTROL
    } else {
        repeat
    };
    let alt = if binding.alt {
        ctrl | MOD_ALT
    } else {
        ctrl
    };
    let shift = if binding.shift {
        alt | MOD_SHIFT
    } else {
        alt
    };
    if binding.win {
        shift | MOD_WIN
    } else {
        shift
    }
}

/// Each modifier has a bit of its own.
pub proof fn lemma_modifier_bits(binding: HotkeyBinding)
    ensures
        modifier_bits(binding) & MOD_NOREPEAT != 0,
        modifier_bits(binding) & MOD_CONTROL != 0 <==> binding.ctrl,
        modifier_bits(binding) & MOD_ALT != 0 <==> binding.alt,
        modifier_bits(binding) & MOD_SHIFT != 0 <==> binding.shift,
        modifier_bits(binding) & MOD_WIN != 0 <==> binding.win,
{
    let (c, a, s, w) = (binding.ctrl, binding.alt, binding.shift, binding.win);
    let bits = modifier_bits(binding);
    assert(bits & 0x4000 != 0 && (bits & 0x2 != 0 <==> c) && (bits & 0x1 != 0 <==> a) && (bits & 0x4
        != 0 <==> s) && (bits & 0x8 != 0 <==> w)) by (bit_vector)
        requires
            bits == ({
                let r0 = 0x4000u32;
                let r1 = if c { r0 | 0x2 } else { r0 };
                let r2 = if a { r1 | 0x1 } else { r1 };
                let r3 = if s { r2 | 0x4 } else { r2 };
                if w { r3 | 0x8 } else { r3 }
            }),
    ;
}

/// The modifiers of a shortcut as Windows numbers them.
pub fn modifiers(binding: HotkeyBinding) -> (r: u32)
    ensures
        r == modifier_bits(binding),
{
    let mut bits: u32 = MOD_NOREPEAT;
    if binding.ctrl {
        bits = bits | MOD_CONTROL;
    }
    if binding.alt {
        bits = bits | MOD_ALT;
    }
    if binding.shift {
        bits = bits | MOD_SHIFT;
    }
    if binding.win {
        bits = bits | MOD_WIN;
    }
    bits
}

/// The id under which the shortcut at `slot` is registered.
pub open spec fn id_of(slot: int) -> i32 {
    (FIRST_ID + slot) as i32
}

/// What Windows is asked for the shortcut at `slot`; one without a modifier is
/// not asked for.
pub open spec fn registration_of(specs: Seq<HotkeySpec>, slot: int) -> Option<Registration> {
    if specs[slot].binding.is_modified() {
        Some(
            Registration {
                id: id_of(slot),
                modifiers: modifier_bits(specs[slot].binding),
                key: specs[slot].binding.key.virtual_key() as u32,
            },
        )
    } else {
        None
    }
}

/// Why the shortcut at `slot` is not registered, given Windows' answers.
pub open spec fn refusal_of(
    specs: Seq<HotkeySpec>,
    answers: Seq<Option<Seq<char>>>,
    slot: int,
) -> Option<Seq<char>> {
    if !specs[slot].binding.is_modified() {
        Some("choose at least one modifier (Ctrl/Alt/Shift/Win)"@)
    } else {
        answers[slot]
    }
}

/// The shortcuts among the first `count` that were registered, with the
/// layouts that they call for.
pub open spec fn registered_ids(
    specs: Seq<HotkeySpec>,
    answers: Seq<Option<Seq<char>>>,
    count: int,
) -> Seq<(i32, usize)>
    decreases count,
{
    if count <= 0 {
        Seq::empty()
    } else {
        let before = registered_ids(specs, answers, count - 1);
        if refusal_of(specs, answers, count - 1) is None {
            before.push((id_of(count - 1), specs[count - 1].layout_index))
        } else {
            before
        }
    }
}

/// The shortcuts among the first `count` that were not registered, and why.
pub open spec fn failures_of(
    specs: Seq<HotkeySpec>,
    answers: Seq<Option<Seq<char>>>,
    count: int,
) -> Seq<FailureView>
    decreases count,
{
    if count <= 0 {
        Seq::empty()
    } else {
        let before = failures_of(specs, answers, count - 1);
        match refusal_of(specs, answers, count - 1) {
            Some(reason) => before.push(
                FailureView {
                    layout_index: specs[count - 1].layout_index,
                    binding: specs[count - 1].binding,
                    reason,
                },
            ),
            None => before,
        }
    }
}

/// The layout that a registered id calls for, at or after `from`.
pub open spec fn layout_of(registered: Seq<(i32, usize)>, id: i32, from: int) -> Option<usize>
    decreases registered.len() - from,
{
    if from < 0 || from >= registered.len() {
        None
    } else if registered[from].0 == id {
        Some(registered[from].1)
    } else {
        layout_of(registered, id, from + 1)
    }
}

proof fn lemma_layout_of_prefix(
    registered: Seq<(i32, usize)>,
    last: (i32, usize),
    id: i32,
    from: int,
)
    requires
        0 <= from <= registered.len(),
        forall|i: int| 0 <= i < registered.len() ==> (#[trigger] registered[i]).0 != last.0,
    ensures
        layout_of(registered.push(last), id, from) == (if id == last.0 {
            Some(last.1)
        } else {
            layout_of(registered, id, from)
        }),
    decreases registered.len() - from,
{
    let all = registered.push(last);
    if from < registered.len() {
        assert(all[from] == registered[from]);
        lemma_layout_of_prefix(registered, last, id, from + 1);
    } else {
        assert(layout_of(all, id, from + 1) is None);
    }
}

/// Every shortcut calls for its own layout where it was registered and for
/// nothing where it was not: one is registered or reported, never both.
pub proof fn lemma_registration(
    specs: Seq<HotkeySpec>,
    answers: Seq<Option<Seq<char>>>,
    count: int,
)
    requires
        0 <= count <= specs.len() <= MOST_SPECS,
    ensures
        registered_ids(specs, answers, count).len() + failures_of(specs, answers, count).len()
            == count,
        forall|slot: int|
            0 <= slot < count ==> layout_of(
                registered_ids(specs, answers, count),
                #[trigger] id_of(slot),
                0,
            ) == (if refusal_of(specs, answers, slot) is None {
                Some(specs[slot].layout_index)
            } else {
                None
            }),
        forall|i: int|
            0 <= i < registered_ids(specs, answers, count).len() ==> FIRST_ID <= (
            #[trigger] registered_ids(specs, answers, count)[i]).0 < FIRST_ID + count,
        forall|id: i32|
            !(FIRST_ID <= id < FIRST_ID + count) ==> #[trigger] layout_of(
                registered_ids(specs, answers, count),
                id,
                0,
            ) is None,
    decreases count,
{
    if count > 0 {
        lemma_registration(specs, answers, count - 1);
        let before = registered_ids(specs, answers, count - 1);
        let after = registered_ids(specs, answers, count);
        let last = (id_of(count - 1), specs[count - 1].layout_index);
        assert forall|slot: int| 0 <= slot < count implies layout_of(
            after,
            #[trigger] id_of(slot),
            0,
        ) == (if refusal_of(specs, answers, slot) is None {
            Some(specs[slot].layout_index)
        } else {
            None
        }) by {
            if refusal_of(specs, answers, count - 1) is None {
                lemma_layout_of_prefix(before, last, id_of(slot), 0);
            } else if slot == count - 1 {
                assert(layout_of(before, id_of(slot), 0) is None);
            }
        }
        assert forall|id: i32| !(FIRST_ID <= id < FIRST_ID + count) implies #[trigger] layout_of(
            after,
            id,
            0,
        ) is None by {
            assert(layout_of(before, id, 0) is None);
            if refusal_of(specs, answers, count - 1) is None {
                lemma_layout_of_prefix(before, last, id, 0);
            }
        }
    }
}

/// The modifiers that are asked for add up: 1 for Alt, 2 for Ctrl, 4 for Shift,
/// 8 for the Windows key, and always 0x4000, so that holding the keys down does
/// not repeat the shortcut.
pub proof fn lemma_modifier_sum(binding: HotkeyBinding)
    ensures
        modifier_bits(binding) == 0x4000 + (if binding.alt { 1int } else { 0 }) + (
        if binding.ctrl { 2int } else { 0 }) + (if binding.shift { 4int } else { 0 }) + (
        if binding.win { 8int } else { 0 }),
{
    let (c, a, s, w) = (binding.ctrl, binding.alt, binding.shift, binding.win);
    let bits = modifier_bits(binding);
    assert(bits == 0x4000 + (if a { 1u32 } else { 0u32 }) + (if c { 2u32 } else { 0u32 }) + (if s {
        4u32
    } else { 0u32 }) + (if w { 8u32 } else { 0u32 })) by (bit_vector)
        requires
            bits == ({
                let r0 = 0x4000u32;
                let r1 = if c { r0 | 0x2 } else { r0 };
                let r2 = if a { r1 | 0x1 } else { r1 };
                let r3 = if s { r2 | 0x4 } else { r2 };
                if w { r3 | 0x8 } else { r3 }
            }),
    ;
}

/// Windows is asked for a shortcut's own key and modifiers, under an id of its
/// own, and not at all for one without a modifier.
pub proof fn lemma_registration_of(specs: Seq<HotkeySpec>, slot: int, other: int)
    requires
        0 <= slot < specs.len() <= 0x7FFF_0000,
        0 <= other < specs.len(),
    ensures
        ({
            let binding = specs[slot].binding;
            let modified = binding.ctrl || binding.alt || binding.shift || binding.win;
            &&& !modified ==> registration_of(specs, slot) is None
            &&& modified ==> (registration_of(specs, slot) matches Some(asked) && asked.id == 0x4D00
                + slot && asked.key == binding.key.virtual_key() && asked.modifiers
                == modifier_bits(binding))
        }),
        slot != other && registration_of(specs, slot) is Some && registration_of(
            specs,
            other,
        ) is Some ==> registration_of(specs, slot)->0.id != registration_of(specs, other)->0.id,
{
}

/// A shortcut without a modifier is refused, whatever Windows says; any other
/// is registered exactly where Windows has nothing against it, and the reason
/// that is given is Windows' own.
pub proof fn lemma_refusals(
    specs: Seq<HotkeySpec>,
    answers: Seq<Option<Seq<char>>>,
    slot: int,
)
    requires
        0 <= slot < specs.len(),
        answers.len() == specs.len(),
    ensures
        ({
            let binding = specs[slot].binding;
            let modified = binding.ctrl || binding.alt || binding.shift || binding.win;
            &&& !modified ==> refusal_of(specs, answers, slot) == Some(
                "choose at least one modifier (Ctrl/Alt/Shift/Win)"@,
            )
            &&& modified ==> refusal_of(specs, answers, slot) == answers[slot]
        }),
{
}

/// Pressing a registered shortcut calls for the layout that it is for; one that
/// was refused is reported with its layout and the reason.
pub proof fn lemma_pressed_shortcut(
    specs: Seq<HotkeySpec>,
    answers: Seq<Option<Seq<char>>>,
    slot: int,
)
    requires
        0 <= slot < specs.len() <= 0x7FFF_0000,
        answers.len() == specs.len(),
    ensures
        ({
            let count = specs.len() as int;
            let binding = specs[slot].binding;
            let modified = binding.ctrl || binding.alt || binding.shift || binding.win;
            let id = (0x4D00 + slot) as i32;
            &&& modified && answers[slot] is None ==> layout_of(
                registered_ids(specs, answers, count),
                id,
                0,
            ) == Some(specs[slot].layout_index)
            &&& !(modified && answers[slot] is None) ==> layout_of(
                registered_ids(specs, answers, count),
                id,
                0,
            ) is None
            &&& modified && answers[slot] is Some ==> failures_of(specs, answers, count).contains(
                FailureView {
                    layout_index: specs[slot].layout_index,
                    binding,
                    reason: answers[slot]->0,
                },
            )
            &&& !modified ==> failures_of(specs, answers, count).contains(
                FailureView {
                    layout_index: specs[slot].layout_index,
                    binding,
                    reason: "choose at least one modifier (Ctrl/Alt/Shift/Win)"@,
                },
            )
        }),
{
    lemma_registration(specs, answers, specs.len() as int);
    lemma_refusals(specs, answers, slot);
    assert(id_of(slot) == (0x4D00 + slot) as i32);
    if refusal_of(specs, answers, slot) is Some {
        lemma_reported(specs, answers, specs.len() as int, slot);
    }
}

proof fn lemma_reported(
    specs: Seq<HotkeySpec>,
    answers: Seq<Option<Seq<char>>>,
    count: int,
    slot: int,
)
    requires
        0 <= slot < count <= specs.len(),
        refusal_of(specs, answers, slot) is Some,
    ensures
        failures_of(specs, answers, count).contains(
            FailureView {
                layout_index: specs[slot].layout_index,
                binding: specs[slot].binding,
                reason: refusal_of(specs, answers, slot)->0,
            },
        ),
    decreases count,
{
    let failure = FailureView {
        layout_index: specs[slot].layout_index,
        binding: specs[slot].binding,
        reason: refusal_of(specs, answers, slot)->0,
    };
    let before = failures_of(specs, answers, count - 1);
    let after = failures_of(specs, answers, count);
    if slot == count - 1 {
        assert(after[before.len() as int] == failure);
    } else {
        lemma_reported(specs, answers, count - 1, slot);
        let k = choose|k: int| 0 <= k < before.len() && before[k] == failure;
        assert(after[k] == failure);
    }
}

// ---------------------------------------------------------------------------
// The manager
// ---------------------------------------------------------------------------

/// Keeps the registered shortcuts.
pub struct HotkeyManager {
    newest: Option<Vec<HotkeySpec>>,
    registered: Vec<(i32, usize)>,
    events: VecDeque<HotkeyEvent>,
}

/// The contents of a [`HotkeyManager`].
#[verifier::ext_equal]
pub struct HotkeysView {
    pub newest: Option<Seq<HotkeySpec>>,
    pub registered: Seq<(i32, usize)>,
    pub events: Seq<HotkeyEventView>,
}

impl View for HotkeyManager {
    type V = HotkeysView;

    closed spec fn view(&self) -> HotkeysView {
        HotkeysView {
            newest: match self.newest {
                Some(specs) => Some(specs@),
                None => None,
            },
            registered: self.registered@,
            events: order::views(self.events@),
        }
    }
}

/// Windows' answers: nothing where a shortcut was registered, otherwise why it
/// was not.
pub open spec fn answers_of(outcomes: Seq<Result<(), String>>) -> Seq<Option<Seq<char>>> {
    outcomes.map_values(
        |outcome: Result<(), String>|
            match outcome {
                Ok(_) => None,
                Err(reason) => Some(reason@),
            },
    )
}

/// An answer is a reason exactly where Windows refused, and is then Windows' own.
pub proof fn lemma_answers(outcomes: Seq<Result<(), String>>, i: int)
    requires
        0 <= i < outcomes.len(),
    ensures
        answers_of(outcomes).len() == outcomes.len(),
        outcomes[i] is Ok ==> answers_of(outcomes)[i] is None,
        outcomes[i] matches Err(reason) ==> answers_of(outcomes)[i] == Some(reason@),
{
}

impl HotkeyManager {
    /// Knows no shortcut.
    pub fn new() -> (r: HotkeyManager)
        ensures
            r@ == (HotkeysView {
                newest: None,
                registered: Seq::empty(),
                events: Seq::empty(),
            }),
    {
        let manager = HotkeyManager {
            newest: None,
            registered: Vec::new(),
            events: VecDeque::new(),
        };
        proof {
            assert(order::views(manager.events@) =~= Seq::empty());
        }
        manager
    }

    /// Asks for other shortcuts. Only the newest request counts, so that edits
    /// in quick succession cause no conflicts in between.
    pub fn replace(&mut self, specs: Vec<HotkeySpec>)
        ensures
            final(self)@ == (HotkeysView { newest: Some(specs@), ..old(self)@ }),
    {
        self.newest = Some(specs);
    }

    /// The newest request, if there is one that was not carried out yet.
    pub fn take_request(&mut self) -> (r: Option<Vec<HotkeySpec>>)
        ensures
            (match r {
                Some(specs) => Some(specs@),
                None => None,
            }) == old(self)@.newest,
            final(self)@ == (HotkeysView { newest: None, ..old(self)@ }),
    {
        let mut request: Option<Vec<HotkeySpec>> = None;
        std::mem::swap(&mut request, &mut self.newest);
        request
    }

    /// The ids that are registered now, which Windows is to be asked to forget
    /// before others are registered.
    pub fn registered(&self) -> (r: Vec<i32>)
        ensures
            r@ == self@.registered.map_values(|entry: (i32, usize)| entry.0),
    {
        let ghost all = self.registered@.map_values(|entry: (i32, usize)| entry.0);
        let mut ids: Vec<i32> = Vec::new();
        let mut at: usize = 0;
        while at < self.registered.len()
            invariant
                at <= self.registered@.len(),
                all == self.registered@.map_values(|entry: (i32, usize)| entry.0),
                ids@ == all.take(at as int),
            decreases self.registered@.len() - at,
        {
            ids.push(self.registered[at].0);
            proof {
                assert(all.take(at + 1) =~= all.take(at as int).push(
                    self.registered@[at as int].0,
                ));
            }
            at = at + 1;
        }
        proof {
            assert(all.take(all.len() as int) =~= all);
        }
        ids
    }

    /// Takes in what came of registering a request.
    pub fn finish(&mut self, specs: &Vec<HotkeySpec>, outcomes: &Vec<Result<(), String>>)
        requires
            specs@.len() == outcomes@.len(),
            specs@.len() <= MOST_SPECS,
        ensures
            final(self)@ == (HotkeysView {
                registered: registered_ids(
                    specs@,
                    answers_of(outcomes@),
                    specs@.len() as int,
                ),
                events: old(self)@.events.push(
                    HotkeyEventView::RegistrationFinished(
                        failures_of(specs@, answers_of(outcomes@), specs@.len() as int),
                    ),
                ),
                ..old(self)@
            }),
    {
        let ghost answers = answers_of(outcomes@);
        let mut registered: Vec<(i32, usize)> = Vec::new();
        let mut failures: Vec<HotkeyRegistrationFailure> = Vec::new();
        let mut slot: usize = 0;
        proof {
            assert(order::views(failures@) =~= Seq::empty());
        }
        while slot < specs.len()
            invariant
                slot <= specs@.len() <= MOST_SPECS,
                specs@.len() == outcomes@.len(),
                answers == answers_of(outcomes@),
                registered@ == registered_ids(specs@, answers, slot as int),
                order::views(failures@) == failures_of(specs@, answers, slot as int),
            decreases specs@.len() - slot,
        {
            let spec = specs[slot];
            let ghost before = failures@;
            let refusal: Option<String> = if !spec.binding.has_modifier() {
                Some("choose at least one modifier (Ctrl/Alt/Shift/Win)".to_string())
            } else {
                match &outcomes[slot] {
                    Ok(_) => None,
                    Err(reason) => Some(reason.clone()),
                }
            };
            assert(model::option_view(refusal) == refusal_of(specs@, answers, slot as int));
            match refusal {
                Some(reason) => {
                    let failure = HotkeyRegistrationFailure {
                        layout_index: spec.layout_index,
                        binding: spec.binding,
                        reason,
                    };
                    failures.push(failure);
                    proof {
                        assert(order::views(failures@) =~= order::views(before).push(failure@));
                    }
                },
                None => {
                    registered.push((FIRST_ID + slot as i32, spec.layout_index));
                },
            }
            slot = slot + 1;
        }
        let ghost told = self.events@;
        self.registered = registered;
        let event = HotkeyEvent::RegistrationFinished(failures);
        self.events.push_back(event);
        proof {
            assert(order::views(self.events@) =~= order::views(told).push(event@));
        }
    }

    /// Takes in that a registered shortcut was pressed; an unknown id is
    /// ignored.
    pub fn pressed(&mut self, id: i32)
        ensures
            final(self)@ == (match layout_of(old(self)@.registered, id, 0) {
                Some(layout_index) => HotkeysView {
                    events: old(self)@.events.push(HotkeyEventView::Triggered(layout_index)),
                    ..old(self)@
                },
                None => old(self)@,
            }),
    {
        let mut at: usize = 0;
        while at < self.registered.len()
            invariant
                at <= self.registered@.len(),
                self@ == old(self)@,
                self@.registered == self.registered@,
                layout_of(self.registered@, id, 0) == layout_of(self.registered@, id, at as int),
            decreases self.registered@.len() - at,
        {
            if self.registered[at].0 == id {
                let ghost told = self.events@;
                let event = HotkeyEvent::Triggered(self.registered[at].1);
                self.events.push_back(event);
                proof {
                    assert(order::views(self.events@) =~= order::views(told).push(event@));
                }
                return;
            }
            at = at + 1;
        }
    }

    /// The next thing to tell, if there is one.
    pub fn try_recv(&mut self) -> (r: Option<HotkeyEvent>)
        ensures
            model::option_view(r) == (if old(self)@.events.len() > 0 {
                Some(old(self)@.events[0])
            } else {
                None
            }),
            final(self)@ == (HotkeysView {
                events: if old(self)@.events.len() > 0 {
                    old(self)@.events.skip(1)
                } else {
                    old(self)@.events
                },
                ..old(self)@
            }),
    {
        let ghost before = self.events@;
        let event = self.events.pop_front();
        proof {
            if before.len() > 0 {
                assert(order::views(self.events@) =~= order::views(before).skip(1));
                assert(order::views(before)[0] == before[0]@);
            }
        }
        event
    }
}

/// What Windows is asked for the shortcut at `slot`, if anything.
pub fn registration(specs: &Vec<HotkeySpec>, slot: usize) -> (r: Option<Registration>)
    requires
        slot < specs@.len() <= MOST_SPECS,
    ensures
        r == registration_of(specs@, slot as int),
{
    let spec = specs[slot];
    if spec.binding.has_modifier() {
        Some(
            Registration {
                id: FIRST_ID + slot as i32,
                modifiers: modifiers(spec.binding),
                key: spec.binding.key.vk(),
            },
        )
    } else {
        None
    }
}

} // verus!
