//! Controller shortcuts: which devices are connected, which chord is being
//! recorded, and which layout a chord calls for.

use vstd::prelude::*;
use vstd::string::*;
use std::collections::{BTreeSet, HashMap, VecDeque};
use crate::model::{ControllerBinding, ControllerBindingView};
use crate::model;
use crate::order;
use crate::text;

pub mod buttons;

verus! {

/// How long a device list is good for, in milliseconds.
pub const DEVICE_REFRESH_INTERVAL: u64 = 1_000;

/// How long the user has to press a chord, in milliseconds.
pub const CAPTURE_TIMEOUT: u64 = 15_000;

// ---------------------------------------------------------------------------
// What is handed in and out
// ---------------------------------------------------------------------------

/// A chord and the layout that it calls for.
#[derive(Debug)]
pub struct ControllerSpec {
    pub layout_index: usize,
    pub binding: ControllerBinding,
}

/// The contents of a [`ControllerSpec`].
#[verifier::ext_equal]
pub struct SpecView {
    pub layout_index: usize,
    pub binding: ControllerBindingView,
}

impl View for ControllerSpec {
    type V = SpecView;

    open spec fn view(&self) -> SpecView {
        SpecView { layout_index: self.layout_index, binding: self.binding@ }
    }
}

/// A connected controller.
#[derive(Debug)]
pub struct ControllerDeviceInfo {
    pub display_name: String,
    pub vendor_id: u16,
    pub product_id: u16,
    pub wireless: bool,
}

/// The contents of a [`ControllerDeviceInfo`].
#[verifier::ext_equal]
pub struct DeviceInfoView {
    pub display_name: Seq<char>,
    pub vendor_id: u16,
    pub product_id: u16,
    pub wireless: bool,
}

impl View for ControllerDeviceInfo {
    type V = DeviceInfoView;

    open spec fn view(&self) -> DeviceInfoView {
        DeviceInfoView {
            display_name: self.display_name@,
            vendor_id: self.vendor_id,
            product_id: self.product_id,
            wireless: self.wireless,
        }
    }
}

impl Clone for ControllerDeviceInfo {
    fn clone(&self) -> (r: Self)
        ensures
            r@ == self@,
    {
        ControllerDeviceInfo {
            display_name: self.display_name.clone(),
            vendor_id: self.vendor_id,
            product_id: self.product_id,
            wireless: self.wireless,
        }
    }
}

impl DeviceInfoView {
    /// The name, the ids and how the device is connected.
    pub open spec fn label(self) -> Seq<char> {
        self.display_name + " ("@ + text::hex4(self.vendor_id) + ":"@ + text::hex4(
            self.product_id,
        ) + ", "@ + (if self.wireless {
            "Bluetooth"@
        } else {
            "USB"@
        }) + ")"@
    }
}

impl ControllerDeviceInfo {
    /// The name, the ids and how the device is connected.
    pub fn label(&self) -> (r: String)
        ensures
            r@ == self@.label(),
    {
        let mut out = self.display_name.clone();
        out.append(" (");
        out.append(text::hex4_text(self.vendor_id).as_str());
        out.append(":");
        out.append(text::hex4_text(self.product_id).as_str());
        out.append(", ");
        if self.wireless {
            out.append("Bluetooth");
        } else {
            out.append("USB");
        }
        out.append(")");
        out
    }

    /// Whether two devices are described the same.
    pub fn same(&self, other: &Self) -> (r: bool)
        ensures
            r == (self@ == other@),
    {
        self.vendor_id == other.vendor_id && self.product_id == other.product_id && self.wireless
            == other.wireless && text::same_text(
            self.display_name.as_str(),
            other.display_name.as_str(),
        )
    }
}

/// What the controllers have to tell.
#[derive(Debug)]
pub enum ControllerEvent {
    Triggered(usize),
    Captured { layout_index: usize, binding: ControllerBinding },
    CaptureProgress(String),
    CaptureCancelled(String),
    DevicesChanged(Vec<ControllerDeviceInfo>),
    Error(String),
}

/// The contents of a [`ControllerEvent`].
#[verifier::ext_equal]
pub enum EventView {
    Triggered(usize),
    Captured { layout_index: usize, binding: ControllerBindingView },
    CaptureProgress(Seq<char>),
    CaptureCancelled(Seq<char>),
    DevicesChanged(Seq<DeviceInfoView>),
    Error(Seq<char>),
}

impl View for ControllerEvent {
    type V = EventView;

    open spec fn view(&self) -> EventView {
        match self {
            ControllerEvent::Triggered(layout_index) => EventView::Triggered(*layout_index),
            ControllerEvent::Captured { layout_index, binding } => EventView::Captured {
                layout_index: *layout_index,
                binding: binding@,
            },
            ControllerEvent::CaptureProgress(message) => EventView::CaptureProgress(message@),
            ControllerEvent::CaptureCancelled(message) => EventView::CaptureCancelled(message@),
            ControllerEvent::DevicesChanged(devices) => EventView::DevicesChanged(
                order::views(devices@),
            ),
            ControllerEvent::Error(message) => EventView::Error(message@),
        }
    }
}

/// An open controller and what is pressed on it.
#[derive(Debug)]
pub struct InputDevice {
    pub id: String,
    pub info: ControllerDeviceInfo,
    pub pressed: BTreeSet<u32>,
}

/// The contents of an [`InputDevice`].
#[verifier::ext_equal]
pub struct DeviceView {
    pub id: Seq<char>,
    pub info: DeviceInfoView,
    pub pressed: Set<u32>,
}

impl View for InputDevice {
    type V = DeviceView;

    open spec fn view(&self) -> DeviceView {
        DeviceView { id: self.id@, info: self.info@, pressed: self.pressed@ }
    }
}

/// A HID device that the system lists.
#[derive(Debug)]
pub struct HidCandidate {
    pub id: String,
    pub description: buttons::HidDescription,
    pub wireless: bool,
}

/// The contents of a [`HidCandidate`].
#[verifier::ext_equal]
pub struct CandidateView {
    pub id: Seq<char>,
    pub vendor_id: u16,
    pub product_id: u16,
    pub usage_page: u16,
    pub usage: u16,
    pub product: Option<Seq<char>>,
    pub wireless: bool,
}

impl View for HidCandidate {
    type V = CandidateView;

    open spec fn view(&self) -> CandidateView {
        CandidateView {
            id: self.id@,
            vendor_id: self.description.vendor_id,
            product_id: self.description.product_id,
            usage_page: self.description.usage_page,
            usage: self.description.usage,
            product: model::option_view(self.description.product),
            wireless: self.wireless,
        }
    }
}

impl CandidateView {
    /// Whether the device is a DualSense gamepad.
    pub open spec fn is_dualsense(self) -> bool {
        buttons::describes_dualsense(
            self.vendor_id,
            self.product_id,
            self.usage_page,
            self.usage,
            self.product,
        )
    }

    /// How the device is shown.
    pub open spec fn info(self) -> DeviceInfoView {
        DeviceInfoView {
            display_name: match self.product {
                Some(name) => name,
                None => "DualSense controller"@,
            },
            vendor_id: self.vendor_id,
            product_id: self.product_id,
            wireless: self.wireless,
        }
    }
}

impl HidCandidate {
    fn info(&self) -> (r: ControllerDeviceInfo)
        ensures
            r@ == self@.info(),
    {
        ControllerDeviceInfo {
            display_name: match &self.description.product {
                Some(name) => name.clone(),
                None => "DualSense controller".to_string(),
            },
            vendor_id: self.description.vendor_id,
            product_id: self.description.product_id,
            wireless: self.wireless,
        }
    }
}

// ---------------------------------------------------------------------------
// Recording a chord
// ---------------------------------------------------------------------------

/// How far the recording of a chord has come.
#[derive(Debug)]
pub enum CaptureState {
    /// Waiting for all buttons to be released, and then for one to be pressed.
    AwaitingRelease { layout_index: usize, deadline: u64, armed: bool },
    /// Collecting what is pressed until everything is released.
    Collecting { layout_index: usize, deadline: u64, device_id: String, buttons: BTreeSet<u32> },
}

/// The contents of a [`CaptureState`].
#[verifier::ext_equal]
pub enum CaptureView {
    AwaitingRelease { layout_index: usize, deadline: u64, armed: bool },
    Collecting { layout_index: usize, deadline: u64, device_id: Seq<char>, buttons: Set<u32> },
}

impl View for CaptureState {
    type V = CaptureView;

    open spec fn view(&self) -> CaptureView {
        match self {
            CaptureState::AwaitingRelease { layout_index, deadline, armed } =>
                CaptureView::AwaitingRelease {
                layout_index: *layout_index,
                deadline: *deadline,
                armed: *armed,
            },
            CaptureState::Collecting { layout_index, deadline, device_id, buttons } =>
                CaptureView::Collecting {
                layout_index: *layout_index,
                deadline: *deadline,
                device_id: device_id@,
                buttons: buttons@,
            },
        }
    }
}

impl CaptureView {
    /// When the recording is given up.
    pub open spec fn deadline(self) -> u64 {
        match self {
            CaptureView::AwaitingRelease { deadline, .. } => deadline,
            CaptureView::Collecting { deadline, .. } => deadline,
        }
    }

    /// The layout that the chord is for.
    pub open spec fn layout_index(self) -> usize {
        match self {
            CaptureView::AwaitingRelease { layout_index, .. } => layout_index,
            CaptureView::Collecting { layout_index, .. } => layout_index,
        }
    }
}

impl CaptureState {
    /// When the recording is given up.
    pub fn deadline(&self) -> (r: u64)
        ensures
            r == self@.deadline(),
    {
        match self {
            CaptureState::AwaitingRelease { deadline, .. } => *deadline,
            CaptureState::Collecting { deadline, .. } => *deadline,
        }
    }
}

/// Whether nothing is pressed on any device.
pub open spec fn all_released(devices: Seq<DeviceView>) -> bool {
    forall|i: int| 0 <= i < devices.len() ==> (#[trigger] devices[i]).pressed.is_empty()
}

/// The first device from `from` on with something pressed.
pub open spec fn first_pressing(devices: Seq<DeviceView>, from: int) -> Option<DeviceView>
    decreases devices.len() - from,
{
    if from < 0 || from >= devices.len() {
        None
    } else if !devices[from].pressed.is_empty() {
        Some(devices[from])
    } else {
        first_pressing(devices, from + 1)
    }
}

/// The first device from `from` on with this id.
pub open spec fn device_with(devices: Seq<DeviceView>, id: Seq<char>, from: int) -> Option<
    DeviceView,
>
    decreases devices.len() - from,
{
    if from < 0 || from >= devices.len() {
        None
    } else if devices[from].id == id {
        Some(devices[from])
    } else {
        device_with(devices, id, from + 1)
    }
}

/// The shortcut that a device's recorded buttons make.
pub open spec fn recorded_binding(
    device: DeviceInfoView,
    recorded: Set<u32>,
) -> ControllerBindingView {
    ControllerBindingView {
        vendor_id: device.vendor_id,
        product_id: device.product_id,
        device_name: device.display_name,
        buttons: buttons::ascending(recorded),
        button_labels: buttons::names_of(buttons::ascending(recorded)),
    }
}

/// One step of a recording: how it goes on, if it does, and what there is to
/// tell.
pub open spec fn capture_step(
    state: CaptureView,
    devices: Seq<DeviceView>,
    now: u64,
) -> (Option<CaptureView>, Option<EventView>) {
    if now >= state.deadline() {
        (
            None,
            Some(
                EventView::CaptureCancelled("Controller binding timed out after 15 seconds"@),
            ),
        )
    } else {
        match state {
            CaptureView::AwaitingRelease { layout_index, deadline, armed } => {
                let ready = armed || all_released(devices);
                match first_pressing(devices, 0) {
                    Some(device) if ready => (
                        Some(
                            CaptureView::Collecting {
                                layout_index,
                                deadline,
                                device_id: device.id,
                                buttons: device.pressed,
                            },
                        ),
                        Some(
                            EventView::CaptureProgress(
                                "Recording "@ + buttons::chord_text(device.pressed)
                                    + " — release the chord to save it"@,
                            ),
                        ),
                    ),
                    _ => (
                        Some(
                            CaptureView::AwaitingRelease { layout_index, deadline, armed: ready },
                        ),
                        None,
                    ),
                }
            },
            CaptureView::Collecting { layout_index, deadline, device_id, buttons } => {
                match device_with(devices, device_id, 0) {
                    None => (
                        None,
                        Some(
                            EventView::CaptureCancelled(
                                "The controller disconnected while recording the binding"@,
                            ),
                        ),
                    ),
                    Some(device) => {
                        let recorded = buttons.union(device.pressed);
                        if device.pressed.is_empty() {
                            (
                                None,
                                Some(
                                    EventView::Captured {
                                        layout_index,
                                        binding: recorded_binding(device.info, recorded),
                                    },
                                ),
                            )
                        } else {
                            (
                                Some(
                                    CaptureView::Collecting {
                                        layout_index,
                                        deadline,
                                        device_id,
                                        buttons: recorded,
                                    },
                                ),
                                None,
                            )
                        }
                    },
                }
            },
        }
    }
}

/// A recording ends at its deadline at the latest, never changes its layout or
/// its deadline, and never loses a button that it has collected.
pub proof fn lemma_capture_step(state: CaptureView, devices: Seq<DeviceView>, now: u64)
    ensures
        now >= state.deadline() ==> capture_step(state, devices, now).0 is None,
        capture_step(state, devices, now).0 matches Some(next) ==> next.deadline()
            == state.deadline() && next.layout_index() == state.layout_index(),
        capture_step(state, devices, now).0 is None ==> capture_step(state, devices, now).1 is Some,
        (state is Collecting && capture_step(state, devices, now).0 matches Some(next)) ==> (
        capture_step(state, devices, now).0->0 is Collecting && state->buttons.subset_of(
            (capture_step(state, devices, now).0->0)->buttons,
        )),
{
}

proof fn lemma_pressing(devices: Seq<DeviceView>, from: int)
    requires
        0 <= from <= devices.len(),
    ensures
        first_pressing(devices, from) is None <==> forall|i: int|
            from <= i < devices.len() ==> (#[trigger] devices[i]).pressed.is_empty(),
        first_pressing(devices, from) matches Some(device) ==> !device.pressed.is_empty(),
    decreases devices.len() - from,
{
    if from < devices.len() {
        lemma_pressing(devices, from + 1);
    }
}

/// A chord is recorded only after everything was released once: a recording
/// that has not seen that does not begin to collect.
pub proof fn lemma_recording_needs_release(
    layout_index: usize,
    deadline: u64,
    devices: Seq<DeviceView>,
    now: u64,
)
    ensures
        ({
            let state = CaptureView::AwaitingRelease { layout_index, deadline, armed: false };
            capture_step(state, devices, now).0 !is Some || capture_step(
                state,
                devices,
                now,
            ).0->0 is AwaitingRelease
        }),
{
    lemma_pressing(devices, 0);
}

/// What is recorded is a chord that can be used and shown: it has a button, the
/// buttons are in order, and each has its name. Collecting never begins without
/// a button.
pub proof fn lemma_recorded_chord(state: CaptureView, devices: Seq<DeviceView>, now: u64)
    requires
        state is Collecting ==> !state->buttons.is_empty() && state->buttons.finite(),
        forall|i: int| 0 <= i < devices.len() ==> (#[trigger] devices[i]).pressed.finite(),
    ensures
        capture_step(state, devices, now).1 matches Some(EventView::Captured {
            layout_index,
            binding,
        }) ==> {
            &&& layout_index == state.layout_index()
            &&& binding.buttons.len() > 0
            &&& buttons::is_ascending(binding.buttons)
            &&& binding.is_labelled()
            &&& binding.can_be_shown()
        },
        capture_step(state, devices, now).0 matches Some(next) ==> (next is Collecting
            ==> !next->buttons.is_empty()),
{
    lemma_pressing(devices, 0);
    if state is Collecting {
        let device_id = state->device_id;
        if let Some(device) = device_with(devices, device_id, 0) {
            lemma_device_with(devices, device_id, 0);
            let recorded = state->buttons.union(device.pressed);
            buttons::lemma_ascending(recorded);
            let chord = buttons::ascending(recorded);
            let first = state->buttons.choose();
            assert(state->buttons.contains(first)) by {
                assert(exists|n: u32| state->buttons.contains(n)) by {
                    if forall|n: u32| !state->buttons.contains(n) {
                        assert(state->buttons =~= Set::empty());
                    }
                }
            }
            assert(recorded.contains(first));
            assert(chord.to_set().contains(first));
            assert(chord.len() > 0);
        }
    }
}

proof fn lemma_device_with(devices: Seq<DeviceView>, id: Seq<char>, from: int)
    requires
        0 <= from,
        device_with(devices, id, from) is Some,
    ensures
        exists|i: int|
            from <= i < devices.len() && #[trigger] devices[i] == device_with(devices, id, from)->0,
    decreases devices.len() - from,
{
    if devices[from].id != id {
        lemma_device_with(devices, id, from + 1);
    }
}

/// A recording whose time has come is given up, in whatever state it is.
pub proof fn lemma_recording_times_out(
    layout_index: usize,
    deadline: u64,
    armed: bool,
    device_id: Seq<char>,
    pressed: Set<u32>,
    devices: Seq<DeviceView>,
    now: u64,
)
    requires
        now >= deadline,
    ensures
        ({
            let step = capture_step(
                CaptureView::AwaitingRelease { layout_index, deadline, armed },
                devices,
                now,
            );
            step.0 is None && step.1 == Some(
                EventView::CaptureCancelled("Controller binding timed out after 15 seconds"@),
            )
        }),
        ({
            let step = capture_step(
                CaptureView::Collecting { layout_index, deadline, device_id, buttons: pressed },
                devices,
                now,
            );
            step.0 is None && step.1 == Some(
                EventView::CaptureCancelled("Controller binding timed out after 15 seconds"@),
            )
        }),
{
}

/// Until its time has come, a recording first waits until no button of any
/// device is down. From then on the first device with a button down starts the
/// chord, with every button that is down on it.
pub proof fn lemma_recording_begins(
    layout_index: usize,
    deadline: u64,
    armed: bool,
    devices: Seq<DeviceView>,
    now: u64,
)
    requires
        now < deadline,
    ensures
        ({
            let step = capture_step(
                CaptureView::AwaitingRelease { layout_index, deadline, armed },
                devices,
                now,
            );
            &&& (forall|i: int, button: u32|
                0 <= i < devices.len() ==> !#[trigger] devices[i].pressed.contains(button))
                ==> step.0 == Some(
                CaptureView::AwaitingRelease { layout_index, deadline, armed: true },
            ) && step.1 is None
            &&& !armed && (exists|i: int, button: u32|
                0 <= i < devices.len() && #[trigger] devices[i].pressed.contains(button)) ==> step.0
                == Some(CaptureView::AwaitingRelease { layout_index, deadline, armed: false })
                && step.1 is None
        }),
        forall|at: int, down: u32|
            #![trigger devices[at].pressed.contains(down)]
            armed && 0 <= at < devices.len() && devices[at].pressed.contains(down) && (forall|
                i: int,
                button: u32,
            |
                0 <= i < at ==> !#[trigger] devices[i].pressed.contains(button)) ==> {
                let step = capture_step(
                    CaptureView::AwaitingRelease { layout_index, deadline, armed },
                    devices,
                    now,
                );
                &&& step.0 == Some(
                    CaptureView::Collecting {
                        layout_index,
                        deadline,
                        device_id: devices[at].id,
                        buttons: devices[at].pressed,
                    },
                )
                &&& step.1 == Some(
                    EventView::CaptureProgress(
                        "Recording "@ + buttons::chord_text(devices[at].pressed)
                            + " — release the chord to save it"@,
                    ),
                )
            },
{
    lemma_pressing(devices, 0);
    if forall|i: int, button: u32|
        0 <= i < devices.len() ==> !#[trigger] devices[i].pressed.contains(button) {
        assert forall|i: int| 0 <= i < devices.len() implies (
        #[trigger] devices[i]).pressed.is_empty() by {
            assert(devices[i].pressed =~= Set::empty());
        }
    }
    assert forall|at: int, down: u32|
        #![trigger devices[at].pressed.contains(down)]
        armed && 0 <= at < devices.len() && devices[at].pressed.contains(down) && (forall|
            i: int,
            button: u32,
        |
            0 <= i < at ==> !#[trigger] devices[i].pressed.contains(button)) implies first_pressing(
        devices,
        0,
    ) == Some(devices[at]) by {
        assert forall|i: int| 0 <= i < at implies (#[trigger] devices[i]).pressed.is_empty() by {
            assert(devices[i].pressed =~= Set::empty());
        }
        lemma_first_pressing(devices, 0, at);
    }
}

proof fn lemma_first_pressing(devices: Seq<DeviceView>, from: int, at: int)
    requires
        0 <= from <= at < devices.len(),
        !devices[at].pressed.is_empty(),
        forall|i: int| from <= i < at ==> (#[trigger] devices[i]).pressed.is_empty(),
    ensures
        first_pressing(devices, from) == Some(devices[at]),
    decreases at - from,
{
    if from < at {
        lemma_first_pressing(devices, from + 1, at);
    }
}

proof fn lemma_first_with(devices: Seq<DeviceView>, id: Seq<char>, from: int, at: int)
    requires
        0 <= from <= at < devices.len(),
        devices[at].id == id,
        forall|i: int| from <= i < at ==> (#[trigger] devices[i]).id != id,
    ensures
        device_with(devices, id, from) == Some(devices[at]),
    decreases at - from,
{
    if from < at {
        lemma_first_with(devices, id, from + 1, at);
    }
}

proof fn lemma_none_with(devices: Seq<DeviceView>, id: Seq<char>, from: int)
    requires
        0 <= from,
        forall|i: int| from <= i < devices.len() ==> (#[trigger] devices[i]).id != id,
    ensures
        device_with(devices, id, from) is None,
    decreases devices.len() - from,
{
    if from < devices.len() {
        lemma_none_with(devices, id, from + 1);
    }
}

/// Once begun, a chord gains every button that goes down on its device, and is
/// saved when the last one is released: with the make and name of the device,
/// its buttons in ascending order, and the name of each. Without its device it
/// is given up.
pub proof fn lemma_recording_ends(
    layout_index: usize,
    deadline: u64,
    device_id: Seq<char>,
    collected: Set<u32>,
    devices: Seq<DeviceView>,
    now: u64,
    at: int,
)
    requires
        now < deadline,
        collected.finite(),
    ensures
        ({
            let step = capture_step(
                CaptureView::Collecting { layout_index, deadline, device_id, buttons: collected },
                devices,
                now,
            );
            let found = 0 <= at < devices.len() && devices[at].id == device_id && (forall|i: int|
                0 <= i < at ==> (#[trigger] devices[i]).id != device_id);
            &&& found && !devices[at].pressed.is_empty() ==> step.1 is None && step.0 == Some(
                CaptureView::Collecting {
                    layout_index,
                    deadline,
                    device_id,
                    buttons: collected.union(devices[at].pressed),
                },
            )
            &&& found && devices[at].pressed.is_empty() ==> step.0 is None && (
            step.1 matches Some(EventView::Captured { layout_index: saved, binding }) && {
                &&& saved == layout_index
                &&& binding.vendor_id == devices[at].info.vendor_id
                &&& binding.product_id == devices[at].info.product_id
                &&& binding.device_name == devices[at].info.display_name
                &&& binding.buttons.to_set() == collected
                &&& forall|i: int, j: int|
                    0 <= i < j < binding.buttons.len() ==> #[trigger] binding.buttons[i]
                        < #[trigger] binding.buttons[j]
                &&& binding.button_labels.len() == binding.buttons.len()
                &&& forall|i: int|
                    0 <= i < binding.buttons.len() ==> #[trigger] binding.button_labels[i]
                        == buttons::name_of(binding.buttons[i])
            })
            &&& (forall|i: int| 0 <= i < devices.len() ==> (#[trigger] devices[i]).id != device_id)
                ==> step.0 is None && step.1 == Some(
                EventView::CaptureCancelled(
                    "The controller disconnected while recording the binding"@,
                ),
            )
        }),
{
    if 0 <= at < devices.len() && devices[at].id == device_id && (forall|i: int|
        0 <= i < at ==> (#[trigger] devices[i]).id != device_id) {
        lemma_first_with(devices, device_id, 0, at);
        if devices[at].pressed.is_empty() {
            assert(collected.union(devices[at].pressed) =~= collected);
            buttons::lemma_ascending(collected);
        }
    }
    if forall|i: int| 0 <= i < devices.len() ==> (#[trigger] devices[i]).id != device_id {
        lemma_none_with(devices, device_id, 0);
    }
}

// ---------------------------------------------------------------------------
// Chords that are held
// ---------------------------------------------------------------------------

/// Whether a device holds every button of a chord that was recorded on a
/// device of its kind.
pub open spec fn holds_chord(device: DeviceView, binding: ControllerBindingView) -> bool {
    &&& device.info.vendor_id == binding.vendor_id
    &&& device.info.product_id == binding.product_id
    &&& forall|i: int|
        0 <= i < binding.buttons.len() ==> device.pressed.contains(#[trigger] binding.buttons[i])
}

/// Whether any device holds a chord.
pub open spec fn is_held(devices: Seq<DeviceView>, binding: ControllerBindingView) -> bool {
    exists|i: int| 0 <= i < devices.len() && holds_chord(#[trigger] devices[i], binding)
}

/// A recorded chord can be played: pressing what was recorded, on a device of
/// the same make, holds it.
pub proof fn lemma_recorded_chord_can_be_played(
    state: CaptureView,
    devices: Seq<DeviceView>,
    now: u64,
    pad: DeviceView,
)
    requires
        state is Collecting,
        state->buttons.finite(),
        state->buttons.subset_of(pad.pressed),
    ensures
        capture_step(state, devices, now).1 matches Some(EventView::Captured {
            layout_index,
            binding,
        }) ==> (pad.info.vendor_id == binding.vendor_id && pad.info.product_id
            == binding.product_id ==> holds_chord(pad, binding)),
{
    if let Some(EventView::Captured { layout_index, binding }) = capture_step(
        state,
        devices,
        now,
    ).1 {
        let device = device_with(devices, state->device_id, 0)->0;
        let recorded = state->buttons.union(device.pressed);
        assert(recorded =~= state->buttons);
        buttons::lemma_ascending(recorded);
        assert forall|i: int| 0 <= i < binding.buttons.len() implies pad.pressed.contains(
            #[trigger] binding.buttons[i],
        ) by {
            assert(binding.buttons.to_set().contains(binding.buttons[i]));
        }
    }
}

/// Whether a layout's chord was held at the last look.
pub open spec fn was_held(active: Map<usize, bool>, layout_index: usize) -> bool {
    active.contains_key(layout_index) && active[layout_index]
}

/// What is held after the first `count` chords were looked at, and the first
/// layout whose chord was not held before.
pub open spec fn chord_step(
    specs: Seq<SpecView>,
    active: Map<usize, bool>,
    devices: Seq<DeviceView>,
    count: int,
) -> (Map<usize, bool>, Option<usize>)
    decreases count,
{
    if count <= 0 {
        (active, None)
    } else {
        let before = chord_step(specs, active, devices, count - 1);
        let spec = specs[count - 1];
        let held = is_held(devices, spec.binding);
        (
            before.0.insert(spec.layout_index, held),
            if before.1 is None && held && !was_held(before.0, spec.layout_index) {
                Some(spec.layout_index)
            } else {
                before.1
            },
        )
    }
}

/// A layout is called for only by a chord that is held now: a chord that was
/// already held calls for nothing, however long it stays held.
pub proof fn lemma_chord_step(
    specs: Seq<SpecView>,
    active: Map<usize, bool>,
    devices: Seq<DeviceView>,
    count: int,
)
    requires
        0 <= count <= specs.len(),
        forall|i: int, j: int|
            0 <= i < j < specs.len() ==> (#[trigger] specs[i]).layout_index != (
            #[trigger] specs[j]).layout_index,
    ensures
        chord_step(specs, active, devices, count).1 matches Some(layout_index) ==> exists|i: int|
            0 <= i < count && (#[trigger] specs[i]).layout_index == layout_index && is_held(
                devices,
                specs[i].binding,
            ) && !was_held(active, layout_index),
        forall|i: int|
            0 <= i < count ==> was_held(
                chord_step(specs, active, devices, count).0,
                (#[trigger] specs[i]).layout_index,
            ) == is_held(devices, specs[i].binding),
        forall|i: int|
            count <= i < specs.len() ==> was_held(
                chord_step(specs, active, devices, count).0,
                (#[trigger] specs[i]).layout_index,
            ) == was_held(active, specs[i].layout_index),
    decreases count,
{
    if count > 0 {
        lemma_chord_step(specs, active, devices, count - 1);
        let before = chord_step(specs, active, devices, count - 1);
        let after = chord_step(specs, active, devices, count);
        let last = specs[count - 1];
        if after.1 is Some && before.1 is None {
            assert(specs[count - 1].layout_index == after.1->0);
        }
        assert forall|i: int| 0 <= i < count implies was_held(
            after.0,
            (#[trigger] specs[i]).layout_index,
        ) == is_held(devices, specs[i].binding) by {
            if i < count - 1 {
                assert(specs[i].layout_index != specs[count - 1].layout_index);
            }
        }
        assert forall|i: int| count <= i < specs.len() implies was_held(
            after.0,
            (#[trigger] specs[i]).layout_index,
        ) == was_held(active, specs[i].layout_index) by {
            assert(specs[count - 1].layout_index != specs[i].layout_index);
        }
    }
}

/// A chord is held where some device of its make has all of its buttons down,
/// whatever else is down.
pub proof fn lemma_held(devices: Seq<DeviceView>, binding: ControllerBindingView)
    ensures
        is_held(devices, binding) <==> exists|i: int|
            0 <= i < devices.len() && (#[trigger] devices[i]).info.vendor_id == binding.vendor_id
                && devices[i].info.product_id == binding.product_id
                && binding.buttons.to_set().subset_of(devices[i].pressed),
{
    assert forall|i: int| 0 <= i < devices.len() implies (holds_chord(
        #[trigger] devices[i],
        binding,
    ) <==> devices[i].info.vendor_id == binding.vendor_id && devices[i].info.product_id
        == binding.product_id && binding.buttons.to_set().subset_of(devices[i].pressed)) by {
        if holds_chord(devices[i], binding) {
            assert forall|n: u32| binding.buttons.to_set().contains(
                n,
            ) implies devices[i].pressed.contains(n) by {
                let k = choose|k: int| 0 <= k < binding.buttons.len() && binding.buttons[k] == n;
                assert(devices[i].pressed.contains(binding.buttons[k]));
            }
        }
        if binding.buttons.to_set().subset_of(devices[i].pressed) {
            assert forall|k: int| 0 <= k < binding.buttons.len() implies devices[i].pressed.contains(
                #[trigger] binding.buttons[k],
            ) by {
                assert(binding.buttons.to_set().contains(binding.buttons[k]));
            }
        }
    }
    if is_held(devices, binding) {
        let i = choose|i: int| 0 <= i < devices.len() && holds_chord(#[trigger] devices[i], binding);
        assert(devices[i].info.vendor_id == binding.vendor_id);
    }
    if exists|i: int|
        0 <= i < devices.len() && (#[trigger] devices[i]).info.vendor_id == binding.vendor_id
            && devices[i].info.product_id == binding.product_id
            && binding.buttons.to_set().subset_of(devices[i].pressed) {
        let i = choose|i: int|
            0 <= i < devices.len() && (#[trigger] devices[i]).info.vendor_id == binding.vendor_id
                && devices[i].info.product_id == binding.product_id
                && binding.buttons.to_set().subset_of(devices[i].pressed);
        assert(holds_chord(devices[i], binding));
    }
}

/// A look calls for the first layout whose chord is held now and was not held
/// at the last look, and for none where there is no such chord.
pub proof fn lemma_newly_held_chord_triggers(
    specs: Seq<SpecView>,
    active: Map<usize, bool>,
    devices: Seq<DeviceView>,
    count: int,
    at: int,
)
    requires
        0 <= count <= specs.len(),
        forall|i: int, j: int|
            0 <= i < j < specs.len() ==> (#[trigger] specs[i]).layout_index != (
            #[trigger] specs[j]).layout_index,
    ensures
        0 <= at < count && is_held(devices, specs[at].binding) && !(active.contains_key(
            specs[at].layout_index,
        ) && active[specs[at].layout_index]) && (forall|i: int|
            0 <= i < at ==> !is_held(devices, (#[trigger] specs[i]).binding) || (
            active.contains_key(specs[i].layout_index) && active[specs[i].layout_index]))
            ==> chord_step(specs, active, devices, count).1 == Some(specs[at].layout_index),
        (forall|i: int|
            0 <= i < count ==> !is_held(devices, (#[trigger] specs[i]).binding) || (
            active.contains_key(specs[i].layout_index) && active[specs[i].layout_index]))
            ==> chord_step(specs, active, devices, count).1 is None,
    decreases count,
{
    if count > 0 {
        lemma_newly_held_chord_triggers(specs, active, devices, count - 1, at);
        lemma_chord_step(specs, active, devices, count - 1);
        assert(was_held(
            chord_step(specs, active, devices, count - 1).0,
            specs[count - 1].layout_index,
        ) == was_held(active, specs[count - 1].layout_index));
    }
}

/// A chord that stays down calls for its layout once: at the next look with the
/// same buttons down, nothing is called for.
pub proof fn lemma_held_chord_triggers_once(
    specs: Seq<SpecView>,
    active: Map<usize, bool>,
    devices: Seq<DeviceView>,
)
    requires
        forall|i: int, j: int|
            0 <= i < j < specs.len() ==> (#[trigger] specs[i]).layout_index != (
            #[trigger] specs[j]).layout_index,
    ensures
        chord_step(
            specs,
            chord_step(specs, active, devices, specs.len() as int).0,
            devices,
            specs.len() as int,
        ).1 is None,
{
    let count = specs.len() as int;
    let after = chord_step(specs, active, devices, count).0;
    lemma_chord_step(specs, active, devices, count);
    lemma_newly_held_chord_triggers(specs, after, devices, count, -1);
    assert forall|i: int| 0 <= i < count implies !is_held(devices, (#[trigger] specs[i]).binding)
        || (after.contains_key(specs[i].layout_index) && after[specs[i].layout_index]) by {
        assert(was_held(after, specs[i].layout_index) == is_held(devices, specs[i].binding));
    }
}

// ---------------------------------------------------------------------------
// The device list
// ---------------------------------------------------------------------------

/// The last device with this id among the first `count`.
pub open spec fn last_with(devices: Seq<DeviceView>, id: Seq<char>, count: int) -> Option<int>
    decreases count,
{
    if count <= 0 {
        None
    } else if devices[count - 1].id == id {
        Some(count - 1)
    } else {
        last_with(devices, id, count - 1)
    }
}

/// Whether a gamepad with this id is listed before `count`.
pub open spec fn is_listed(candidates: Seq<CandidateView>, id: Seq<char>, count: int) -> bool {
    exists|i: int|
        0 <= i < count && (#[trigger] candidates[i]).is_dualsense() && candidates[i].id == id
}

/// The open device that listed device `at` stands for, if it was open before
/// and is not listed earlier.
pub open spec fn device_to_keep(
    devices: Seq<DeviceView>,
    candidates: Seq<CandidateView>,
    at: int,
) -> Option<int> {
    if candidates[at].is_dualsense() && !is_listed(candidates, candidates[at].id, at) {
        last_with(devices, candidates[at].id, devices.len() as int)
    } else {
        None
    }
}

/// What came of going through a device list.
#[verifier::ext_equal]
pub struct RefreshView {
    pub devices: Seq<DeviceView>,
    pub matching: nat,
    pub errors: Seq<Seq<char>>,
}

/// What comes of the first `count` listed devices. A gamepad that was open
/// stays open with what is pressed on it; another one is opened, which may
/// fail.
pub open spec fn refreshed(
    devices: Seq<DeviceView>,
    candidates: Seq<CandidateView>,
    opened: Seq<Option<Seq<char>>>,
    count: int,
) -> RefreshView
    decreases count,
{
    if count <= 0 {
        RefreshView { devices: Seq::empty(), matching: 0, errors: Seq::empty() }
    } else {
        let before = refreshed(devices, candidates, opened, count - 1);
        let candidate = candidates[count - 1];
        if !candidate.is_dualsense() {
            before
        } else {
            match device_to_keep(devices, candidates, count - 1) {
                Some(kept) => RefreshView {
                    devices: before.devices.push(
                        DeviceView {
                            id: candidate.id,
                            info: candidate.info(),
                            pressed: devices[kept].pressed,
                        },
                    ),
                    matching: before.matching + 1,
                    errors: before.errors,
                },
                None => match opened[count - 1] {
                    None => RefreshView {
                        devices: before.devices.push(
                            DeviceView {
                                id: candidate.id,
                                info: candidate.info(),
                                pressed: Set::empty(),
                            },
                        ),
                        matching: before.matching + 1,
                        errors: before.errors,
                    },
                    Some(error) => RefreshView {
                        devices: before.devices,
                        matching: before.matching + 1,
                        errors: before.errors.push(error),
                    },
                },
            }
        }
    }
}

/// Why a device was not opened, for each; nothing where it was.
pub open spec fn open_errors(opened: Seq<Result<(), String>>) -> Seq<Option<Seq<char>>> {
    opened.map_values(
        |result: Result<(), String>|
            match result {
                Ok(_) => None,
                Err(error) => Some(error@),
            },
    )
}

/// How each device is shown.
pub open spec fn infos_of(devices: Seq<DeviceView>) -> Seq<DeviceInfoView> {
    devices.map_values(|device: DeviceView| device.info)
}

/// Devices are shown in their order, each as it describes itself, and a device
/// counts as opened exactly where opening it did not fail.
pub proof fn lemma_shown_devices(
    devices: Seq<DeviceView>,
    opened: Seq<Result<(), String>>,
    i: int,
)
    ensures
        infos_of(devices).len() == devices.len(),
        0 <= i < devices.len() ==> infos_of(devices)[i] == devices[i].info,
        open_errors(opened).len() == opened.len(),
        0 <= i < opened.len() && opened[i] is Ok ==> open_errors(opened)[i] is None,
        0 <= i < opened.len() ==> (opened[i] matches Err(error) ==> open_errors(opened)[i] == Some(
            error@,
        )),
{
}

/// A device is read out by its name, its two ids and how it is connected.
pub proof fn lemma_device_labels(device: DeviceInfoView)
    ensures
        device.wireless ==> device.label() == device.display_name + " ("@ + text::hex4(
            device.vendor_id,
        ) + ":"@ + text::hex4(device.product_id) + ", "@ + "Bluetooth"@ + ")"@,
        !device.wireless ==> device.label() == device.display_name + " ("@ + text::hex4(
            device.vendor_id,
        ) + ":"@ + text::hex4(device.product_id) + ", "@ + "USB"@ + ")"@,
{
}

// ---------------------------------------------------------------------------
// The manager
// ---------------------------------------------------------------------------

/// Watches the controllers.
pub struct ControllerManager {
    specs: Vec<ControllerSpec>,
    active: HashMap<usize, bool>,
    capture: Option<CaptureState>,
    devices: Vec<InputDevice>,
    published: Option<Vec<ControllerDeviceInfo>>,
    refresh_at: u64,
    last_refresh_error: Option<String>,
    events: VecDeque<ControllerEvent>,
}

/// The contents of a [`ControllerManager`].
#[verifier::ext_equal]
pub struct ManagerView {
    pub specs: Seq<SpecView>,
    pub active: Map<usize, bool>,
    pub capture: Option<CaptureView>,
    pub devices: Seq<DeviceView>,
    pub published: Option<Seq<DeviceInfoView>>,
    pub refresh_at: u64,
    pub last_refresh_error: Option<Seq<char>>,
    pub events: Seq<EventView>,
}

impl View for ControllerManager {
    type V = ManagerView;

    closed spec fn view(&self) -> ManagerView {
        ManagerView {
            specs: order::views(self.specs@),
            active: self.active@,
            capture: model::option_view(self.capture),
            devices: order::views(self.devices@),
            published: match self.published {
                Some(infos) => Some(order::views(infos@)),
                None => None,
            },
            refresh_at: self.refresh_at,
            last_refresh_error: model::option_view(self.last_refresh_error),
            events: order::views(self.events@),
        }
    }
}

/// The shortcuts that have any button.
pub open spec fn valid_specs(specs: Seq<SpecView>) -> Seq<SpecView>
    decreases specs.len(),
{
    if specs.len() == 0 {
        Seq::empty()
    } else if specs.last().binding.buttons.len() > 0 {
        valid_specs(specs.drop_last()).push(specs.last())
    } else {
        valid_specs(specs.drop_last())
    }
}

impl ManagerView {
    /// Nothing known yet; the device list is due at once.
    pub open spec fn initial(now: u64) -> ManagerView {
        ManagerView {
            specs: Seq::empty(),
            active: Map::empty(),
            capture: None,
            devices: Seq::empty(),
            published: None,
            refresh_at: now,
            last_refresh_error: None,
            events: Seq::empty(),
        }
    }

    /// With one thing more to tell.
    pub open spec fn telling(self, event: EventView) -> ManagerView {
        ManagerView { events: self.events.push(event), ..self }
    }

    /// With other shortcuts, none of them held.
    pub open spec fn replaced(self, specs: Seq<SpecView>) -> ManagerView {
        ManagerView { specs: valid_specs(specs), active: Map::empty(), ..self }
    }

    /// Recording a chord for a layout.
    pub open spec fn recording(self, layout_index: usize, now: u64) -> ManagerView {
        ManagerView {
            capture: Some(
                CaptureView::AwaitingRelease {
                    layout_index,
                    deadline: (now + CAPTURE_TIMEOUT) as u64,
                    armed: false,
                },
            ),
            ..self
        }.telling(
            EventView::CaptureProgress(
                "Release all controller buttons, then press the desired chord"@,
            ),
        )
    }

    /// No longer recording.
    pub open spec fn cancelled(self) -> ManagerView {
        if self.capture is Some {
            ManagerView { capture: None, ..self }.telling(
                EventView::CaptureCancelled("Controller binding cancelled"@),
            )
        } else {
            self
        }
    }

    /// With a device list, or with why there is none. A failure is told once;
    /// the devices are told where they are others than were told last.
    pub open spec fn listing(
        self,
        devices: Seq<DeviceView>,
        error: Option<Seq<char>>,
        now: u64,
    ) -> ManagerView {
        let settled = ManagerView {
            devices,
            refresh_at: (now + DEVICE_REFRESH_INTERVAL) as u64,
            last_refresh_error: match error {
                Some(text) => Some("Could not open DualSense controller input: "@ + text),
                None => None,
            },
            ..self
        };
        let told = if settled.last_refresh_error is Some && settled.last_refresh_error
            != self.last_refresh_error {
            settled.telling(EventView::Error(settled.last_refresh_error->0))
        } else {
            settled
        };
        if self.published == Some(infos_of(devices)) {
            told
        } else {
            ManagerView { published: Some(infos_of(devices)), ..told }.telling(
                EventView::DevicesChanged(infos_of(devices)),
            )
        }
    }

    /// With the gamepads of a device list.
    pub open spec fn refreshed_with(
        self,
        candidates: Seq<CandidateView>,
        opened: Seq<Option<Seq<char>>>,
        now: u64,
    ) -> ManagerView {
        let outcome = refreshed(self.devices, candidates, opened, candidates.len() as int);
        self.listing(
            outcome.devices,
            if outcome.devices.len() == 0 && outcome.matching > 0 {
                Some(text::join(outcome.errors, "; "@))
            } else {
                None
            },
            now,
        )
    }

    /// With a report of one device taken in.
    pub open spec fn reported(self, device: int, report: Seq<u8>) -> ManagerView {
        match buttons::payload(report) {
            None => self,
            Some(data) => ManagerView {
                devices: self.devices.update(
                    device,
                    DeviceView {
                        pressed: buttons::pressed_buttons(data),
                        ..self.devices[device]
                    },
                ),
                ..self
            },
        }
    }

    /// With every device dropped because one could not be read.
    pub open spec fn lost(self, device: int, error: Seq<char>, now: u64) -> ManagerView {
        ManagerView { devices: Seq::empty(), active: Map::empty(), refresh_at: now, ..self }.telling(
            EventView::Error(
                "Lost controller input from "@ + self.devices[device].info.display_name + ": "@
                    + error,
            ),
        )
    }

    /// After a look at what is pressed: a recording goes on, or a chord calls
    /// for its layout. While recording, no chord calls for anything.
    pub open spec fn updated(self, now: u64) -> ManagerView {
        match self.capture {
            Some(state) => {
                let step = capture_step(state, self.devices, now);
                let after = ManagerView { capture: step.0, ..self };
                match step.1 {
                    Some(event) => after.telling(event),
                    None => after,
                }
            },
            None => {
                let step = chord_step(
                    self.specs,
                    self.active,
                    self.devices,
                    self.specs.len() as int,
                );
                let after = ManagerView { active: step.0, ..self };
                match step.1 {
                    Some(layout_index) => after.telling(EventView::Triggered(layout_index)),
                    None => after,
                }
            },
        }
    }
}

proof fn lemma_valid_specs(specs: Seq<SpecView>)
    ensures
        forall|i: int|
            0 <= i < valid_specs(specs).len() ==> (#[trigger] valid_specs(
                specs,
            )[i]).binding.buttons.len() > 0 && specs.contains(valid_specs(specs)[i]),
        forall|i: int|
            0 <= i < specs.len() && (#[trigger] specs[i]).binding.buttons.len() > 0 ==> valid_specs(
                specs,
            ).contains(specs[i]),
        (forall|i: int| 0 <= i < specs.len() ==> (#[trigger] specs[i]).binding.buttons.len() > 0)
            ==> valid_specs(specs) == specs,
    decreases specs.len(),
{
    if specs.len() > 0 {
        let before = specs.drop_last();
        let found = valid_specs(before);
        let all = valid_specs(specs);
        lemma_valid_specs(before);
        assert forall|i: int| 0 <= i < all.len() implies (
        #[trigger] all[i]).binding.buttons.len() > 0 && specs.contains(all[i]) by {
            if i < found.len() {
                assert(all[i] == found[i]);
                let k = choose|k: int| 0 <= k < before.len() && before[k] == found[i];
                assert(specs[k] == all[i]);
            } else {
                assert(specs[specs.len() - 1] == all[i]);
            }
        }
        assert forall|i: int| 0 <= i < specs.len() && (
        #[trigger] specs[i]).binding.buttons.len() > 0 implies all.contains(specs[i]) by {
            if i < before.len() {
                assert(before[i] == specs[i]);
                let k = choose|k: int| 0 <= k < found.len() && found[k] == before[i];
                assert(all[k] == specs[i]);
            } else {
                assert(all[all.len() - 1] == specs[i]);
            }
        }
        if forall|i: int|
            0 <= i < specs.len() ==> (#[trigger] specs[i]).binding.buttons.len() > 0 {
            assert forall|i: int| 0 <= i < before.len() implies (
            #[trigger] before[i]).binding.buttons.len() > 0 by {
                assert(before[i] == specs[i]);
            }
            assert(specs[specs.len() - 1].binding.buttons.len() > 0);
            assert(all =~= specs);
        }
    } else {
        assert(valid_specs(specs) =~= specs);
    }
}

/// Shortcuts that have a button are watched, those without are not, and none
/// of them counts as held; what is being recorded and what is pressed stays.
pub proof fn lemma_replaced(manager: ManagerView, specs: Seq<SpecView>)
    ensures
        ({
            let after = manager.replaced(specs);
            &&& after.active == Map::<usize, bool>::empty()
            &&& forall|i: int|
                0 <= i < after.specs.len() ==> (#[trigger] after.specs[i]).binding.buttons.len() > 0
                    && specs.contains(after.specs[i])
            &&& forall|i: int|
                0 <= i < specs.len() && (#[trigger] specs[i]).binding.buttons.len() > 0
                    ==> after.specs.contains(specs[i])
            &&& after.capture == manager.capture
            &&& after.devices == manager.devices
            &&& after.events == manager.events
            &&& after.refresh_at == manager.refresh_at
        }),
{
    lemma_valid_specs(specs);
}

/// A recording lasts fifteen seconds, is for the layout that was asked for, and
/// starts by waiting for every button to be released; the user is told so. It
/// can be cancelled, which is told once.
pub proof fn lemma_recording_starts(manager: ManagerView, layout_index: usize, now: u64)
    requires
        now <= u64::MAX - 15_000,
    ensures
        ({
            let after = manager.recording(layout_index, now);
            &&& after.capture matches Some(CaptureView::AwaitingRelease {
                layout_index: wanted,
                deadline,
                armed,
            }) && wanted == layout_index && deadline == now + 15_000 && !armed
            &&& after.events == manager.events.push(
                EventView::CaptureProgress(
                    "Release all controller buttons, then press the desired chord"@,
                ),
            )
            &&& after.specs == manager.specs && after.active == manager.active && after.devices
                == manager.devices
            &&& after.cancelled().capture is None
            &&& after.cancelled().events == after.events.push(
                EventView::CaptureCancelled("Controller binding cancelled"@),
            )
            &&& after.cancelled().cancelled() == after.cancelled()
        }),
        manager.capture is None ==> manager.cancelled() == manager,
{
}

/// A report changes what is pressed on the device that it is from, and nothing
/// else: what is pressed is what its payload says, and a report without a
/// payload changes nothing.
pub proof fn lemma_reported(manager: ManagerView, device: int, report: Seq<u8>, other: int)
    requires
        0 <= device < manager.devices.len(),
        0 <= other < manager.devices.len(),
        other != device,
    ensures
        ({
            let after = manager.reported(device, report);
            &&& after.devices.len() == manager.devices.len()
            &&& after.devices[other] == manager.devices[other]
            &&& after.devices[device].id == manager.devices[device].id
            &&& after.devices[device].info == manager.devices[device].info
            &&& buttons::payload(report) is None ==> after == manager
            &&& buttons::payload(report) matches Some(data) ==> after.devices[device].pressed
                == buttons::pressed_buttons(data)
            &&& after.specs == manager.specs && after.active == manager.active && after.capture
                == manager.capture && after.events == manager.events
        }),
{
}

/// Where a device cannot be read, every device is let go, no chord counts as
/// held, the list is due at once, and the user is told which device it was.
pub proof fn lemma_lost(manager: ManagerView, device: int, error: Seq<char>, now: u64)
    requires
        0 <= device < manager.devices.len(),
    ensures
        ({
            let after = manager.lost(device, error, now);
            &&& after.devices.len() == 0
            &&& after.active == Map::<usize, bool>::empty()
            &&& after.refresh_at == now
            &&& after.events == manager.events.push(
                EventView::Error(
                    "Lost controller input from "@ + manager.devices[device].info.display_name
                        + ": "@ + error,
                ),
            )
            &&& after.specs == manager.specs && after.capture == manager.capture
        }),
{
}

/// A device list is good for a second. A change of the devices is told, a list
/// that shows the same devices is not, and a failure is told once, until it is
/// another or has gone.
pub proof fn lemma_listing(
    manager: ManagerView,
    devices: Seq<DeviceView>,
    error: Option<Seq<char>>,
    now: u64,
)
    requires
        now <= u64::MAX - 15_000,
    ensures
        ({
            let after = manager.listing(devices, error, now);
            let again = after.listing(devices, error, now);
            &&& after.devices == devices
            &&& after.refresh_at == now + 1_000
            &&& after.published == Some(infos_of(devices))
            &&& error is None ==> after.last_refresh_error is None
            &&& error matches Some(why) ==> after.last_refresh_error == Some(
                "Could not open DualSense controller input: "@ + why,
            )
            &&& again.events == after.events
            &&& manager.published == Some(infos_of(devices)) && error is None ==> after.events
                == manager.events
            &&& manager.published != Some(infos_of(devices)) ==> after.events.len()
                > manager.events.len() && after.events.last() == EventView::DevicesChanged(
                infos_of(devices),
            )
            &&& (error matches Some(why) && manager.last_refresh_error != Some(
                "Could not open DualSense controller input: "@ + why,
            )) ==> after.events.len() > manager.events.len()
                && after.events[manager.events.len() as int] == EventView::Error(
                "Could not open DualSense controller input: "@ + error->0,
            )
            &&& after.specs == manager.specs && after.active == manager.active && after.capture
                == manager.capture
        }),
{
}

/// How a device is shown is what it says of itself, and a nameless one is shown
/// as a DualSense controller.
pub proof fn lemma_device_info(candidate: CandidateView)
    ensures
        candidate.info().vendor_id == candidate.vendor_id,
        candidate.info().product_id == candidate.product_id,
        candidate.info().wireless == candidate.wireless,
        candidate.product matches Some(name) ==> candidate.info().display_name == name,
        candidate.product is None ==> candidate.info().display_name == "DualSense controller"@,
{
}

proof fn lemma_last_with(devices: Seq<DeviceView>, id: Seq<char>, count: int)
    requires
        0 <= count <= devices.len(),
    ensures
        last_with(devices, id, count) matches Some(at) ==> 0 <= at < count && devices[at].id == id
            && forall|i: int| at < i < count ==> (#[trigger] devices[i]).id != id,
        last_with(devices, id, count) is None ==> forall|i: int|
            0 <= i < count ==> (#[trigger] devices[i]).id != id,
    decreases count,
{
    if count > 0 {
        lemma_last_with(devices, id, count - 1);
    }
}

/// A listed gamepad that could be opened is among the devices, as it is listed.
/// Where it was open before and is listed for the first time, what is pressed on
/// it stays; otherwise nothing is pressed on it yet.
pub proof fn lemma_listed_gamepad(
    devices: Seq<DeviceView>,
    candidates: Seq<CandidateView>,
    opened: Seq<Option<Seq<char>>>,
    count: int,
    at: int,
) -> (place: int)
    requires
        0 <= at < count <= candidates.len(),
        opened.len() == candidates.len(),
        candidates[at].is_dualsense(),
        opened[at] is None,
    ensures
        ({
            let after = refreshed(devices, candidates, opened, count).devices;
            let first = forall|i: int|
                0 <= i < at && (#[trigger] candidates[i]).is_dualsense() ==> candidates[i].id
                    != candidates[at].id;
            &&& 0 <= place < after.len()
            &&& after[place].id == candidates[at].id
            &&& after[place].info == candidates[at].info()
            &&& !first || (forall|i: int|
                0 <= i < devices.len() ==> (#[trigger] devices[i]).id != candidates[at].id)
                ==> after[place].pressed == Set::<u32>::empty()
            &&& forall|k: int|
                first && 0 <= k < devices.len() && (#[trigger] devices[k]).id == candidates[at].id
                    && (forall|i: int|
                    k < i < devices.len() ==> (#[trigger] devices[i]).id != candidates[at].id)
                    ==> after[place].pressed == devices[k].pressed
        }),
    decreases count,
{
    if at == count - 1 {
        let before = refreshed(devices, candidates, opened, at);
        lemma_last_with(devices, candidates[at].id, devices.len() as int);
        before.devices.len() as int
    } else {
        lemma_listed_gamepad(devices, candidates, opened, count - 1, at)
    }
}

/// Nothing but listed gamepads is ever among the devices, in the order in which
/// they are listed, and every one that is not among them is accounted for by an
/// error.
pub proof fn lemma_only_listed_gamepads(
    devices: Seq<DeviceView>,
    candidates: Seq<CandidateView>,
    opened: Seq<Option<Seq<char>>>,
    count: int,
    i: int,
) -> (at: int)
    requires
        0 <= count <= candidates.len(),
    ensures
        ({
            let after = refreshed(devices, candidates, opened, count);
            &&& after.devices.len() + after.errors.len() == after.matching <= count
            &&& 0 <= i < after.devices.len() ==> {
                &&& 0 <= at < count
                &&& candidates[at].is_dualsense()
                &&& candidates[at].id == after.devices[i].id
                &&& candidates[at].info() == after.devices[i].info
            }
        }),
    decreases count,
{
    if count <= 0 {
        0
    } else {
        let before = refreshed(devices, candidates, opened, count - 1);
        let at = lemma_only_listed_gamepads(devices, candidates, opened, count - 1, i);
        if i < before.devices.len() {
            at
        } else {
            count - 1
        }
    }
}

/// A look while nothing is recorded tells of the layout that is called for, if
/// any, and of nothing else; one while recording tells what the recording has
/// to tell.
pub proof fn lemma_updated(manager: ManagerView, now: u64)
    ensures
        ({
            let after = manager.updated(now);
            let step = chord_step(
                manager.specs,
                manager.active,
                manager.devices,
                manager.specs.len() as int,
            );
            &&& manager.capture is None && step.1 is None ==> after.events == manager.events
            &&& (manager.capture is None && step.1 matches Some(index)) ==> after.events
                == manager.events.push(EventView::Triggered(step.1->0))
            &&& manager.capture is None ==> after.active == step.0 && after.capture is None
            &&& manager.capture matches Some(state) ==> after.capture == capture_step(
                state,
                manager.devices,
                now,
            ).0
            &&& (manager.capture is Some && capture_step(
                manager.capture->0,
                manager.devices,
                now,
            ).1 is Some) ==> after.events == manager.events.push(
                capture_step(manager.capture->0, manager.devices, now).1->0,
            )
            &&& after.specs == manager.specs && after.devices == manager.devices
        }),
{
}

/// While a chord is being recorded, none calls for its layout.
pub proof fn lemma_recording_triggers_nothing(manager: ManagerView, now: u64)
    requires
        manager.capture is Some,
    ensures
        forall|i: int|
            manager.events.len() <= i < manager.updated(now).events.len() ==> !((
            #[trigger] manager.updated(now).events[i]) is Triggered),
        manager.updated(now).active == manager.active,
{
}

impl ControllerManager {
    fn tell(&mut self, event: ControllerEvent)
        ensures
            final(self)@ == old(self)@.telling(event@),
    {
        let ghost before = self.events@;
        self.events.push_back(event);
        proof {
            assert(order::views(self.events@) =~= order::views(before).push(event@));
        }
    }

    /// Knows no device and no shortcut.
    pub fn new(now: u64) -> (r: ControllerManager)
        ensures
            r@ == ManagerView::initial(now),
    {
        broadcast use vstd::std_specs::hash::group_hash_axioms;

        let manager = ControllerManager {
            specs: Vec::new(),
            active: HashMap::new(),
            capture: None,
            devices: Vec::new(),
            published: None,
            refresh_at: now,
            last_refresh_error: None,
            events: VecDeque::new(),
        };
        proof {
            assert(manager@ =~= ManagerView::initial(now));
        }
        manager
    }

    /// Takes other shortcuts; those without a button are left out.
    pub fn replace(&mut self, specs: Vec<ControllerSpec>)
        ensures
            final(self)@ == old(self)@.replaced(order::views(specs@)),
    {
        let ghost all = order::views(specs@);
        let mut rest = specs;
        let mut kept: Vec<ControllerSpec> = Vec::new();
        // Taken from the end, so they are turned round once more below.
        while rest.len() > 0
            invariant
                valid_specs(all) == valid_specs(order::views(rest@)) + order::views(
                    kept@,
                ).reverse(),
            decreases rest@.len(),
        {
            let ghost before = order::views(rest@);
            let ghost earlier = kept@;
            match rest.pop() {
                Some(spec) => {
                    proof {
                        assert(before.drop_last() =~= order::views(rest@));
                        assert(before.last() == spec@);
                    }
                    if spec.binding.is_valid() {
                        kept.push(spec);
                        proof {
                            assert(order::views(kept@).reverse() =~= seq![spec@] + order::views(
                                earlier,
                            ).reverse());
                            assert(valid_specs(before) + order::views(earlier).reverse()
                                =~= valid_specs(order::views(rest@)) + order::views(
                                kept@,
                            ).reverse());
                        }
                    }
                },
                None => {},
            }
        }
        let ghost turned = order::views(kept@).reverse();
        proof {
            assert(valid_specs(all) =~= turned);
        }
        let mut valid: Vec<ControllerSpec> = Vec::new();
        while kept.len() > 0
            invariant
                order::views(valid@) + order::views(kept@).reverse() == turned,
            decreases kept@.len(),
        {
            let ghost before = order::views(kept@).reverse();
            let ghost earlier = valid@;
            match kept.pop() {
                Some(spec) => {
                    valid.push(spec);
                    proof {
                        assert(order::views(valid@) =~= order::views(earlier).push(spec@));
                        assert(before =~= seq![spec@] + order::views(kept@).reverse());
                        assert(order::views(valid@) + order::views(kept@).reverse()
                            =~= order::views(earlier) + before);
                    }
                },
                None => {},
            }
        }
        proof {
            assert(order::views(valid@) =~= turned);
        }
        self.specs = valid;
        self.active.clear();
    }

    /// Begins to record a chord for a layout.
    pub fn begin_capture(&mut self, layout_index: usize, now: u64)
        requires
            now <= u64::MAX - CAPTURE_TIMEOUT,
        ensures
            final(self)@ == old(self)@.recording(layout_index, now),
    {
        self.capture = Some(
            CaptureState::AwaitingRelease {
                layout_index,
                deadline: now + CAPTURE_TIMEOUT,
                armed: false,
            },
        );
        self.tell(
            ControllerEvent::CaptureProgress(
                "Release all controller buttons, then press the desired chord".to_string(),
            ),
        );
    }

    /// Gives up recording.
    pub fn cancel_capture(&mut self)
        ensures
            final(self)@ == old(self)@.cancelled(),
    {
        if self.capture.is_some() {
            self.capture = None;
            self.tell(
                ControllerEvent::CaptureCancelled("Controller binding cancelled".to_string()),
            );
        }
    }

    /// The next thing to tell, if there is one.
    pub fn try_recv(&mut self) -> (r: Option<ControllerEvent>)
        ensures
            model::option_view(r) == (if old(self)@.events.len() > 0 {
                Some(old(self)@.events[0])
            } else {
                None
            }),
            final(self)@ == (ManagerView {
                events: if old(self)@.events.len() > 0 {
                    old(self)@.events.skip(1)
                } else {
                    old(self)@.events
                },
                ..old(self)@
            }),
    {
        let ghost before = self.events@;
        let event = self.events.pop_front();
        proof {
            if before.len() > 0 {
                assert(order::views(self.events@) =~= order::views(before).skip(1));
                assert(order::views(before)[0] == before[0]@);
            }
        }
        event
    }

    /// Whether the device list is due.
    pub fn refresh_due(&self, now: u64) -> (r: bool)
        ensures
            r == (now >= self@.refresh_at),
    {
        now >= self.refresh_at
    }

    /// The open device that listed device `at` stands for, if any.
    pub fn device_to_keep(&self, candidates: &Vec<HidCandidate>, at: usize) -> (r: Option<usize>)
        requires
            at < candidates@.len(),
        ensures
            r is Some <==> device_to_keep(
                self@.devices,
                order::views(candidates@),
                at as int,
            ) is Some,
            r matches Some(kept) ==> device_to_keep(
                self@.devices,
                order::views(candidates@),
                at as int,
            ) == Some(kept as int) && kept < self@.devices.len(),
    {
        kept_device(&self.devices, candidates, at)
    }

    /// Takes in a device list, given which devices could be opened. Where a
    /// device is kept, whether it could be opened does not matter.
    pub fn refresh(
        &mut self,
        candidates: &Vec<HidCandidate>,
        opened: &Vec<Result<(), String>>,
        now: u64,
    )
        requires
            opened@.len() == candidates@.len(),
            now <= u64::MAX - CAPTURE_TIMEOUT,
        ensures
            final(self)@ == old(self)@.refreshed_with(
                order::views(candidates@),
                open_errors(opened@),
                now,
            ),
    {
        let (devices, matching, errors) = refresh_devices(&self.devices, candidates, opened);
        if devices.len() == 0 && matching > 0 {
            let error = text::join_texts(&errors, "; ");
            self.list(devices, Some(error), now);
        } else {
            self.list(devices, None, now);
        }
    }

    /// Takes in that there is no device list.
    pub fn refresh_failed(&mut self, error: String, now: u64)
        requires
            now <= u64::MAX - CAPTURE_TIMEOUT,
        ensures
            final(self)@ == old(self)@.listing(Seq::empty(), Some(error@), now),
    {
        let devices: Vec<InputDevice> = Vec::new();
        proof {
            assert(order::views(devices@) =~= Seq::empty());
        }
        self.list(devices, Some(error), now);
    }

    fn list(&mut self, devices: Vec<InputDevice>, error: Option<String>, now: u64)
        requires
            now <= u64::MAX - CAPTURE_TIMEOUT,
        ensures
            final(self)@ == old(self)@.listing(
                order::views(devices@),
                model::option_view(error),
                now,
            ),
    {
        let ghost start = self@;
        let infos = device_infos(&devices);
        let again = device_infos(&devices);
        let changed = match &self.published {
            Some(told) => !same_infos(told, &infos),
            None => true,
        };
        self.devices = devices;
        self.refresh_at = now + DEVICE_REFRESH_INTERVAL;
        match error {
            Some(cause) => {
                let mut message = "Could not open DualSense controller input: ".to_string();
                message.append(cause.as_str());
                let known = match &self.last_refresh_error {
                    Some(last) => text::same_text(last.as_str(), message.as_str()),
                    None => false,
                };
                let copy = message.clone();
                self.last_refresh_error = Some(message);
                if !known {
                    self.tell(ControllerEvent::Error(copy));
                }
            },
            None => {
                self.last_refresh_error = None;
            },
        }
        if changed {
            self.published = Some(infos);
            self.tell(ControllerEvent::DevicesChanged(again));
        }
    }

    /// How many devices are open.
    pub fn device_count(&self) -> (r: usize)
        ensures
            r == self@.devices.len(),
    {
        self.devices.len()
    }

    /// Takes in a report of an open device.
    pub fn report(&mut self, device: usize, report: &[u8])
        requires
            device < old(self)@.devices.len(),
        ensures
            final(self)@ == old(self)@.reported(device as int, report@),
    {
        if let Some(data) = buttons::extract_report(report) {
            let ghost before = self.devices@;
            let mut changed = self.devices.remove(device);
            changed.pressed = buttons::parse_buttons(data);
            self.devices.insert(device, changed);
            proof {
                assert(self.devices@ =~= before.update(device as int, changed));
                assert(order::views(self.devices@) =~= order::views(before).update(
                    device as int,
                    changed@,
                ));
            }
        }
    }

    /// Takes in that an open device could not be read.
    pub fn lost(&mut self, device: usize, error: &str, now: u64)
        requires
            device < old(self)@.devices.len(),
        ensures
            final(self)@ == old(self)@.lost(device as int, error@, now),
    {
        let mut message = "Lost controller input from ".to_string();
        message.append(self.devices[device].info.display_name.as_str());
        message.append(": ");
        message.append(error);
        self.devices.clear();
        self.active.clear();
        self.refresh_at = now;
        proof {
            assert(order::views(self.devices@) =~= Seq::empty());
        }
        self.tell(ControllerEvent::Error(message));
    }

    /// Looks at what is pressed.
    pub fn update(&mut self, now: u64)
        ensures
            final(self)@ == old(self)@.updated(now),
    {
        let mut capture: Option<CaptureState> = None;
        std::mem::swap(&mut capture, &mut self.capture);
        match capture {
            Some(state) => {
                let (next, event) = update_capture(state, &self.devices, now);
                self.capture = next;
                if let Some(told) = event {
                    self.tell(told);
                }
            },
            None => {
                let triggered = update_hotkeys(&self.specs, &mut self.active, &self.devices);
                if let Some(layout_index) = triggered {
                    self.tell(ControllerEvent::Triggered(layout_index));
                }
            },
        }
    }
}

fn device_infos(devices: &Vec<InputDevice>) -> (r: Vec<ControllerDeviceInfo>)
    ensures
        order::views(r@) == infos_of(order::views(devices@)),
{
    let ghost all = infos_of(order::views(devices@));
    let mut infos: Vec<ControllerDeviceInfo> = Vec::new();
    let mut at: usize = 0;
    while at < devices.len()
        invariant
            at <= devices@.len(),
            all == infos_of(order::views(devices@)),
            order::views(infos@) == all.take(at as int),
        decreases devices@.len() - at,
    {
        let ghost before = infos@;
        let info = devices[at].info.clone();
        infos.push(info);
        proof {
            assert(order::views(infos@) =~= order::views(before).push(info@));
            assert(all.take(at + 1) =~= all.take(at as int).push(devices@[at as int]@.info));
        }
        at = at + 1;
    }
    proof {
        assert(all.take(all.len() as int) =~= all);
    }
    infos
}

fn same_infos(a: &Vec<ControllerDeviceInfo>, b: &Vec<ControllerDeviceInfo>) -> (r: bool)
    ensures
        r == (order::views(a@) == order::views(b@)),
{
    let ghost left = order::views(a@);
    let ghost right = order::views(b@);
    assert(left.len() == a@.len() && right.len() == b@.len());
    if a.len() != b.len() {
        return false;
    }
    let mut at: usize = 0;
    while at < a.len()
        invariant
            at <= a@.len(),
            a@.len() == b@.len(),
            left == order::views(a@),
            right == order::views(b@),
            forall|i: int| 0 <= i < at ==> #[trigger] left[i] == right[i],
        decreases a@.len() - at,
    {
        assert(left[at as int] == a@[at as int]@ && right[at as int] == b@[at as int]@);
        if !a[at].same(&b[at]) {
            return false;
        }
        at = at + 1;
    }
    proof {
        assert(left =~= right);
    }
    true
}

fn find_last(devices: &Vec<InputDevice>, id: &str) -> (r: Option<usize>)
    ensures
        r is Some <==> last_with(order::views(devices@), id@, devices@.len() as int) is Some,
        r matches Some(at) ==> last_with(order::views(devices@), id@, devices@.len() as int)
            == Some(at as int) && at < devices@.len(),
{
    let ghost all = order::views(devices@);
    let mut count: usize = devices.len();
    while count > 0
        invariant
            count <= devices@.len(),
            all == order::views(devices@),
            last_with(all, id@, devices@.len() as int) == last_with(all, id@, count as int),
        decreases count,
    {
        assert(all[count - 1] == devices@[count - 1]@);
        if text::same_text(devices[count - 1].id.as_str(), id) {
            return Some(count - 1);
        }
        count = count - 1;
    }
    None
}

fn listed_before(candidates: &Vec<HidCandidate>, id: &str, count: usize) -> (r: bool)
    requires
        count <= candidates@.len(),
    ensures
        r == is_listed(order::views(candidates@), id@, count as int),
{
    let ghost all = order::views(candidates@);
    let mut at: usize = 0;
    while at < count
        invariant
            at <= count <= candidates@.len(),
            all == order::views(candidates@),
            forall|i: int|
                0 <= i < at ==> !((#[trigger] all[i]).is_dualsense() && all[i].id == id@),
        decreases count - at,
    {
        assert(all[at as int] == candidates@[at as int]@);
        if buttons::is_dualsense(&candidates[at].description) && text::same_text(
            candidates[at].id.as_str(),
            id,
        ) {
            assert(all[at as int].is_dualsense() && all[at as int].id == id@);
            return true;
        }
        at = at + 1;
    }
    false
}

fn kept_device(
    devices: &Vec<InputDevice>,
    candidates: &Vec<HidCandidate>,
    at: usize,
) -> (r: Option<usize>)
    requires
        at < candidates@.len(),
    ensures
        r is Some <==> device_to_keep(
            order::views(devices@),
            order::views(candidates@),
            at as int,
        ) is Some,
        r matches Some(kept) ==> device_to_keep(
            order::views(devices@),
            order::views(candidates@),
            at as int,
        ) == Some(kept as int) && kept < devices@.len(),
{
    let candidate = &candidates[at];
    assert(order::views(candidates@)[at as int] == candidate@);
    assert(order::views(devices@).len() == devices@.len());
    if buttons::is_dualsense(&candidate.description) && !listed_before(
        candidates,
        candidate.id.as_str(),
        at,
    ) {
        find_last(devices, candidate.id.as_str())
    } else {
        None
    }
}

/// Goes through a device list: the gamepads in it, how many there are, and why
/// some could not be opened.
pub fn refresh_devices(
    devices: &Vec<InputDevice>,
    candidates: &Vec<HidCandidate>,
    opened: &Vec<Result<(), String>>,
) -> (r: (Vec<InputDevice>, usize, Vec<String>))
    requires
        opened@.len() == candidates@.len(),
    ensures
        ({
            let outcome = refreshed(
                order::views(devices@),
                order::views(candidates@),
                open_errors(opened@),
                candidates@.len() as int,
            );
            &&& order::views(r.0@) == outcome.devices
            &&& r.1 == outcome.matching
            &&& text::texts(r.2@) == outcome.errors
        }),
{
    let ghost open = order::views(devices@);
    let ghost listed = order::views(candidates@);
    let ghost results = open_errors(opened@);
    let mut kept: Vec<InputDevice> = Vec::new();
    let mut matching: usize = 0;
    let mut errors: Vec<String> = Vec::new();
    let mut at: usize = 0;
    proof {
        assert(order::views(kept@) =~= Seq::empty());
        assert(text::texts(errors@) =~= Seq::empty());
    }
    while at < candidates.len()
        invariant
            at <= candidates@.len(),
            opened@.len() == candidates@.len(),
            matching <= at,
            open == order::views(devices@),
            listed == order::views(candidates@),
            results == open_errors(opened@),
            order::views(kept@) == refreshed(open, listed, results, at as int).devices,
            matching == refreshed(open, listed, results, at as int).matching,
            text::texts(errors@) == refreshed(open, listed, results, at as int).errors,
        decreases candidates@.len() - at,
    {
        let candidate = &candidates[at];
        assert(listed[at as int] == candidate@);
        if buttons::is_dualsense(&candidate.description) {
            matching = matching + 1;
            let ghost before = kept@;
            let ghost failed = errors@;
            match kept_device(devices, candidates, at) {
                Some(old) => {
                    assert(open[old as int] == devices@[old as int]@);
                    let device = InputDevice {
                        id: candidate.id.clone(),
                        info: candidate.info(),
                        pressed: devices[old].pressed.clone(),
                    };
                    kept.push(device);
                    proof {
                        assert(order::views(kept@) =~= order::views(before).push(device@));
                    }
                },
                None => match &opened[at] {
                    Ok(_) => {
                        let device = InputDevice {
                            id: candidate.id.clone(),
                            info: candidate.info(),
                            pressed: BTreeSet::new(),
                        };
                        kept.push(device);
                        proof {
                            assert(order::views(kept@) =~= order::views(before).push(device@));
                        }
                    },
                    Err(error) => {
                        let copy = error.clone();
                        errors.push(copy);
                        proof {
                            assert(text::texts(errors@) =~= text::texts(failed).push(copy@));
                        }
                    },
                },
            }
        }
        at = at + 1;
    }
    (kept, matching, errors)
}

fn nothing_pressed(devices: &Vec<InputDevice>) -> (r: bool)
    ensures
        r == all_released(order::views(devices@)),
{
    let ghost all = order::views(devices@);
    let mut at: usize = 0;
    while at < devices.len()
        invariant
            at <= devices@.len(),
            all == order::views(devices@),
            forall|i: int| 0 <= i < at ==> (#[trigger] all[i]).pressed.is_empty(),
        decreases devices@.len() - at,
    {
        assert(all[at as int] == devices@[at as int]@);
        if !devices[at].pressed.is_empty() {
            assert(!all[at as int].pressed.is_empty());
            return false;
        }
        at = at + 1;
    }
    true
}

fn find_pressing(devices: &Vec<InputDevice>) -> (r: Option<usize>)
    ensures
        r is Some <==> first_pressing(order::views(devices@), 0) is Some,
        r matches Some(at) ==> at < devices@.len() && first_pressing(order::views(devices@), 0)
            == Some(devices@[at as int]@),
{
    let ghost all = order::views(devices@);
    let mut at: usize = 0;
    while at < devices.len()
        invariant
            at <= devices@.len(),
            all == order::views(devices@),
            first_pressing(all, 0) == first_pressing(all, at as int),
        decreases devices@.len() - at,
    {
        assert(all[at as int] == devices@[at as int]@);
        if !devices[at].pressed.is_empty() {
            return Some(at);
        }
        at = at + 1;
    }
    None
}

fn find_device(devices: &Vec<InputDevice>, id: &str) -> (r: Option<usize>)
    ensures
        r is Some <==> device_with(order::views(devices@), id@, 0) is Some,
        r matches Some(at) ==> at < devices@.len() && device_with(order::views(devices@), id@, 0)
            == Some(devices@[at as int]@),
{
    let ghost all = order::views(devices@);
    let mut at: usize = 0;
    while at < devices.len()
        invariant
            at <= devices@.len(),
            all == order::views(devices@),
            device_with(all, id@, 0) == device_with(all, id@, at as int),
        decreases devices@.len() - at,
    {
        assert(all[at as int] == devices@[at as int]@);
        if text::same_text(devices[at].id.as_str(), id) {
            return Some(at);
        }
        at = at + 1;
    }
    None
}

fn add_all(collected: &mut BTreeSet<u32>, more: &BTreeSet<u32>)
    ensures
        final(collected)@ == old(collected)@.union(more@),
{
    let ghost before = collected@;
    let listed = buttons::sorted_buttons(more);
    let mut at: usize = 0;
    proof {
        assert(before.union(listed@.take(0).to_set()) =~= before);
    }
    while at < listed.len()
        invariant
            at <= listed@.len(),
            collected@ == before.union(listed@.take(at as int).to_set()),
        decreases listed@.len() - at,
    {
        buttons::add_if(collected, true, listed[at]);
        proof {
            let done = listed@.take(at as int);
            let next = listed@.take(at + 1);
            assert(next =~= done.push(listed@[at as int]));
            assert(before.union(next.to_set()) =~= before.union(done.to_set()).insert(
                listed@[at as int],
            )) by {
                assert forall|n: u32| next.contains(n) <==> done.contains(n) || n
                    == listed@[at as int] by {
                    if done.contains(n) {
                        let k = choose|k: int| 0 <= k < done.len() && done[k] == n;
                        assert(next[k] == n);
                    }
                    assert(next[at as int] == listed@[at as int]);
                    if next.contains(n) && n != listed@[at as int] {
                        let k = choose|k: int| 0 <= k < next.len() && next[k] == n;
                        assert(done[k] == n);
                    }
                }
            }
        }
        at = at + 1;
    }
    proof {
        assert(listed@.take(listed@.len() as int) =~= listed@);
    }
}

/// One step of a recording.
pub fn update_capture(
    state: CaptureState,
    devices: &Vec<InputDevice>,
    now: u64,
) -> (r: (Option<CaptureState>, Option<ControllerEvent>))
    ensures
        model::option_view(r.0) == capture_step(state@, order::views(devices@), now).0,
        model::option_view(r.1) == capture_step(state@, order::views(devices@), now).1,
{
    if now >= state.deadline() {
        return (
            None,
            Some(
                ControllerEvent::CaptureCancelled(
                    "Controller binding timed out after 15 seconds".to_string(),
                ),
            ),
        );
    }
    match state {
        CaptureState::AwaitingRelease { layout_index, deadline, armed } => {
            let ready = armed || nothing_pressed(devices);
            if ready {
                if let Some(at) = find_pressing(devices) {
                    let device = &devices[at];
                    let mut message = "Recording ".to_string();
                    message.append(buttons::buttons_label(&device.pressed).as_str());
                    message.append(" — release the chord to save it");
                    return (
                        Some(
                            CaptureState::Collecting {
                                layout_index,
                                deadline,
                                device_id: device.id.clone(),
                                buttons: device.pressed.clone(),
                            },
                        ),
                        Some(ControllerEvent::CaptureProgress(message)),
                    );
                }
            }
            (Some(CaptureState::AwaitingRelease { layout_index, deadline, armed: ready }), None)
        },
        CaptureState::Collecting { layout_index, deadline, device_id, buttons } => {
            match find_device(devices, device_id.as_str()) {
                None => (
                    None,
                    Some(
                        ControllerEvent::CaptureCancelled(
                            "The controller disconnected while recording the binding".to_string(),
                        ),
                    ),
                ),
                Some(at) => {
                    let device = &devices[at];
                    let mut recorded = buttons;
                    add_all(&mut recorded, &device.pressed);
                    if device.pressed.is_empty() {
                        let chord = buttons::sorted_buttons(&recorded);
                        let button_labels = buttons::button_names(&chord);
                        (
                            None,
                            Some(
                                ControllerEvent::Captured {
                                    layout_index,
                                    binding: ControllerBinding {
                                        vendor_id: device.info.vendor_id,
                                        product_id: device.info.product_id,
                                        device_name: device.info.display_name.clone(),
                                        buttons: chord,
                                        button_labels,
                                    },
                                },
                            ),
                        )
                    } else {
                        (
                            Some(
                                CaptureState::Collecting {
                                    layout_index,
                                    deadline,
                                    device_id,
                                    buttons: recorded,
                                },
                            ),
                            None,
                        )
                    }
                },
            }
        },
    }
}

fn device_holds(device: &InputDevice, binding: &ControllerBinding) -> (r: bool)
    ensures
        r == holds_chord(device@, binding@),
{
    broadcast use vstd::std_specs::btree::group_btree_axioms;

    if device.info.vendor_id != binding.vendor_id || device.info.product_id != binding.product_id {
        return false;
    }
    let mut at: usize = 0;
    while at < binding.buttons.len()
        invariant
            at <= binding.buttons@.len(),
            forall|i: int|
                0 <= i < at ==> device.pressed@.contains(#[trigger] binding.buttons@[i]),
        decreases binding.buttons@.len() - at,
    {
        if !device.pressed.contains(&binding.buttons[at]) {
            assert(!device@.pressed.contains(binding@.buttons[at as int]));
            return false;
        }
        at = at + 1;
    }
    true
}

fn any_holds(devices: &Vec<InputDevice>, binding: &ControllerBinding) -> (r: bool)
    ensures
        r == is_held(order::views(devices@), binding@),
{
    let ghost all = order::views(devices@);
    let mut at: usize = 0;
    while at < devices.len()
        invariant
            at <= devices@.len(),
            all == order::views(devices@),
            forall|i: int| 0 <= i < at ==> !holds_chord(#[trigger] all[i], binding@),
        decreases devices@.len() - at,
    {
        assert(all[at as int] == devices@[at as int]@);
        if device_holds(&devices[at], binding) {
            assert(holds_chord(all[at as int], binding@));
            return true;
        }
        at = at + 1;
    }
    false
}

/// Looks at which chords are held, and which of them calls for its layout.
pub fn update_hotkeys(
    specs: &Vec<ControllerSpec>,
    active: &mut HashMap<usize, bool>,
    devices: &Vec<InputDevice>,
) -> (triggered: Option<usize>)
    ensures
        (final(active)@, triggered) == chord_step(
            order::views(specs@),
            old(active)@,
            order::views(devices@),
            specs@.len() as int,
        ),
{
    broadcast use vstd::std_specs::hash::group_hash_axioms;

    let ghost all = order::views(specs@);
    let ghost pads = order::views(devices@);
    let ghost start = active@;
    let mut triggered: Option<usize> = None;
    let mut at: usize = 0;
    while at < specs.len()
        invariant
            at <= specs@.len(),
            all == order::views(specs@),
            pads == order::views(devices@),
            start == old(active)@,
            (active@, triggered) == chord_step(all, start, pads, at as int),
        decreases specs@.len() - at,
    {
        let spec = &specs[at];
        assert(all[at as int] == spec@);
        let held = any_holds(devices, &spec.binding);
        let previous = active.insert(spec.layout_index, held);
        let was = match previous {
            Some(value) => value,
            None => false,
        };
        if held && !was && triggered.is_none() {
            triggered = Some(spec.layout_index);
        }
        at = at + 1;
    }
    triggered
}

} // verus!
