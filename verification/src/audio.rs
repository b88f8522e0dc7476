//! Audio devices that go along with a layout.

use vstd::prelude::*;
use vstd::string::*;
use crate::model::{AudioDeviceConfig, AudioDeviceView, LayoutView, MonitorLayout};
use crate::model;
use crate::order;
use crate::text;

verus! {

/// The audio devices that are active, and which of them Windows uses.
#[derive(Debug)]
pub struct AudioDeviceInventory {
    pub playback: Vec<AudioDeviceConfig>,
    pub microphones: Vec<AudioDeviceConfig>,
    pub default_playback_id: Option<String>,
    pub default_microphone_id: Option<String>,
}

/// The contents of an [`AudioDeviceInventory`].
#[verifier::ext_equal]
pub struct InventoryView {
    pub playback: Seq<AudioDeviceView>,
    pub microphones: Seq<AudioDeviceView>,
    pub default_playback_id: Option<Seq<char>>,
    pub default_microphone_id: Option<Seq<char>>,
}

impl View for AudioDeviceInventory {
    type V = InventoryView;

    open spec fn view(&self) -> InventoryView {
        InventoryView {
            playback: order::views(self.playback@),
            microphones: order::views(self.microphones@),
            default_playback_id: model::option_view(self.default_playback_id),
            default_microphone_id: model::option_view(self.default_microphone_id),
        }
    }
}

/// No devices at all.
pub open spec fn no_devices() -> InventoryView {
    InventoryView {
        playback: Seq::empty(),
        microphones: Seq::empty(),
        default_playback_id: None,
        default_microphone_id: None,
    }
}

impl Default for AudioDeviceInventory {
    fn default() -> (r: Self)
        ensures
            r@ == no_devices(),
    {
        let devices = AudioDeviceInventory {
            playback: Vec::new(),
            microphones: Vec::new(),
            default_playback_id: None,
            default_microphone_id: None,
        };
        assert(order::views(devices.playback@) =~= Seq::empty());
        assert(order::views(devices.microphones@) =~= Seq::empty());
        devices
    }
}

/// The id of a device, where there is one.
pub open spec fn id_of(device: Option<AudioDeviceView>) -> Option<Seq<char>> {
    match device {
        Some(found) => Some(found.id),
        None => None,
    }
}

fn take_id(device: Option<AudioDeviceConfig>) -> (r: Option<String>)
    ensures
        model::option_view(r) == id_of(model::option_view(device)),
{
    match device {
        Some(found) => Some(found.id),
        None => None,
    }
}

/// The default device is known by its id.
pub proof fn lemma_default_id(device: AudioDeviceView)
    ensures
        id_of(Some(device)) == Some(device.id),
        id_of(None) is None,
{
}

/// Puts what Windows lists into the order in which it is shown.
pub fn enumerate_devices(
    playback: Vec<AudioDeviceConfig>,
    microphones: Vec<AudioDeviceConfig>,
    default_playback: Option<AudioDeviceConfig>,
    default_microphone: Option<AudioDeviceConfig>,
) -> (r: AudioDeviceInventory)
    ensures
        r@ == (InventoryView {
            playback: order::stable_sorted::<AudioDeviceConfig>(order::views(playback@)),
            microphones: order::stable_sorted::<AudioDeviceConfig>(order::views(microphones@)),
            default_playback_id: id_of(model::option_view(default_playback)),
            default_microphone_id: id_of(model::option_view(default_microphone)),
        }),
{
    AudioDeviceInventory {
        playback: order::stable_sort(playback),
        microphones: order::stable_sort(microphones),
        default_playback_id: take_id(default_playback),
        default_microphone_id: take_id(default_microphone),
    }
}

/// Puts the devices that Windows uses now into a layout.
pub fn capture_current_devices(
    layout: &mut MonitorLayout,
    playback: Option<AudioDeviceConfig>,
    microphone: Option<AudioDeviceConfig>,
)
    ensures
        final(layout)@ == (LayoutView {
            playback_device: model::option_view(playback),
            microphone_device: model::option_view(microphone),
            ..old(layout)@
        }),
{
    layout.playback_device = playback;
    layout.microphone_device = microphone;
}

/// Whether a device with this id is among `devices`.
pub open spec fn is_active(devices: Seq<AudioDeviceView>, id: Seq<char>) -> bool {
    exists|i: int| 0 <= i < devices.len() && (#[trigger] devices[i]).id == id
}

fn holds_device(devices: &Vec<AudioDeviceConfig>, id: &str) -> (r: bool)
    ensures
        r == is_active(order::views(devices@), id@),
{
    let ghost all = order::views(devices@);
    let mut at: usize = 0;
    while at < devices.len()
        invariant
            at <= devices@.len(),
            all == order::views(devices@),
            forall|i: int| 0 <= i < at ==> (#[trigger] all[i]).id != id@,
        decreases devices@.len() - at,
    {
        assert(all[at as int] == devices@[at as int]@);
        if text::same_text(devices[at].id.as_str(), id) {
            assert(all[at as int].id == id@);
            return true;
        }
        at = at + 1;
    }
    false
}

/// What the user reads where a saved device is not there.
pub open spec fn missing_device(selected: AudioDeviceView, category: Seq<char>) -> Seq<char> {
    "saved "@ + category + " device '"@ + selected.label()
        + "' is disconnected or unavailable"@
}

/// Makes sure that a saved device is active.
pub fn ensure_available(
    selected: &AudioDeviceConfig,
    active: &Vec<AudioDeviceConfig>,
    category: &str,
) -> (r: Result<(), String>)
    ensures
        r is Ok <==> is_active(order::views(active@), selected@.id),
        r matches Err(message) ==> message@ == missing_device(selected@, category@),
{
    if holds_device(active, selected.id.as_str()) {
        return Ok(());
    }
    let mut message = "saved ".to_string();
    message.append(category);
    message.append(" device '");
    message.append(selected.label());
    message.append("' is disconnected or unavailable");
    Err(message)
}

/// A device that Windows is to use by default for every role.
#[derive(Debug)]
pub struct DefaultDevice {
    /// The endpoint's id in UTF-16, with a zero at the end.
    pub endpoint: Vec<u16>,
    /// What went wrong where Windows refuses.
    pub failure: String,
}

/// The contents of a [`DefaultDevice`].
#[verifier::ext_equal]
pub struct DefaultView {
    pub endpoint: Seq<u16>,
    pub failure: Seq<char>,
}

impl View for DefaultDevice {
    type V = DefaultView;

    open spec fn view(&self) -> DefaultView {
        DefaultView { endpoint: self.endpoint@, failure: self.failure@ }
    }
}

/// Making a device the default one.
pub open spec fn default_device(device: AudioDeviceView, action: Seq<char>) -> DefaultView {
    DefaultView {
        endpoint: text::encode_utf16(device.id).push(0),
        failure: action + " '"@ + device.label() + "'"@,
    }
}

fn make_default(device: &AudioDeviceConfig, action: &str) -> (r: DefaultDevice)
    ensures
        r@ == default_device(device@, action@),
{
    let mut endpoint = text::utf16_of(device.id.as_str());
    endpoint.push(0);
    let mut failure = action.to_string();
    failure.append(" '");
    failure.append(device.label());
    failure.append("'");
    DefaultDevice { endpoint, failure }
}

/// Whether a layout sets any audio device.
pub fn sets_audio(layout: &MonitorLayout) -> (r: bool)
    ensures
        r == (layout@.playback_device is Some || layout@.microphone_device is Some),
{
    layout.playback_device.is_some() || layout.microphone_device.is_some()
}

/// Why a layout's audio devices cannot be set, if they cannot.
pub open spec fn audio_fault(
    layout: LayoutView,
    playback: Seq<AudioDeviceView>,
    microphones: Seq<AudioDeviceView>,
) -> Option<Seq<char>> {
    if layout.playback_device matches Some(device) && !is_active(playback, device.id) {
        Some(missing_device(layout.playback_device->0, "playback"@))
    } else if layout.microphone_device matches Some(device) && !is_active(
        microphones,
        device.id,
    ) {
        Some(missing_device(layout.microphone_device->0, "microphone"@))
    } else {
        None
    }
}

/// The devices that a layout makes the default ones, playback first.
pub open spec fn chosen_devices(layout: LayoutView) -> Seq<DefaultView> {
    (match layout.playback_device {
        Some(device) => seq![default_device(device, "could not select playback device"@)],
        None => Seq::empty(),
    }) + (match layout.microphone_device {
        Some(device) => seq![default_device(device, "could not select microphone"@)],
        None => Seq::empty(),
    })
}

/// A layout's audio devices can be set exactly where each that it names is
/// connected, the playback device among the playback devices and the microphone
/// among the microphones. A missing playback device is told first.
pub proof fn lemma_audio_fault(
    layout: LayoutView,
    playback: Seq<AudioDeviceView>,
    microphones: Seq<AudioDeviceView>,
)
    ensures
        ({
            let no_playback = layout.playback_device is Some && forall|i: int|
                0 <= i < playback.len() ==> (#[trigger] playback[i]).id
                    != layout.playback_device->0.id;
            let no_microphone = layout.microphone_device is Some && forall|i: int|
                0 <= i < microphones.len() ==> (#[trigger] microphones[i]).id
                    != layout.microphone_device->0.id;
            &&& audio_fault(layout, playback, microphones) is None <==> !no_playback
                && !no_microphone
            &&& no_playback ==> audio_fault(layout, playback, microphones) == Some(
                "saved "@ + "playback"@ + " device '"@ + layout.playback_device->0.label()
                    + "' is disconnected or unavailable"@,
            )
            &&& !no_playback && no_microphone ==> audio_fault(layout, playback, microphones)
                == Some(
                "saved "@ + "microphone"@ + " device '"@ + layout.microphone_device->0.label()
                    + "' is disconnected or unavailable"@,
            )
        }),
{
}

/// A layout makes its own devices the default ones, playback before microphone,
/// each by its id as a zero-terminated text, and none that it does not name.
pub proof fn lemma_chosen_devices(layout: LayoutView)
    ensures
        ({
            let chosen = chosen_devices(layout);
            &&& layout.playback_device is None && layout.microphone_device is None ==> chosen.len()
                == 0
            &&& layout.playback_device matches Some(device) ==> chosen.len() > 0
                && chosen[0].endpoint.len() > 0 && chosen[0].endpoint.last() == 0
                && text::decode_utf16(chosen[0].endpoint.drop_last()) == device.id
                && chosen[0].failure == "could not select playback device"@ + " '"@
                + device.label() + "'"@
            &&& layout.microphone_device matches Some(device) ==> chosen.len() > 0
                && chosen.last().endpoint.len() > 0 && chosen.last().endpoint.last() == 0
                && text::decode_utf16(chosen.last().endpoint.drop_last()) == device.id
                && chosen.last().failure == "could not select microphone"@ + " '"@ + device.label()
                + "'"@
            &&& layout.playback_device is Some && layout.microphone_device is Some ==> chosen.len()
                == 2
            &&& layout.playback_device is Some && layout.microphone_device is None ==> chosen.len()
                == 1
            &&& layout.playback_device is None && layout.microphone_device is Some ==> chosen.len()
                == 1
        }),
{
    if let Some(device) = layout.playback_device {
        text::lemma_utf16_reads_back(device.id);
        assert(text::encode_utf16(device.id).push(0).drop_last() =~= text::encode_utf16(device.id));
    }
    if let Some(device) = layout.microphone_device {
        text::lemma_utf16_reads_back(device.id);
        assert(text::encode_utf16(device.id).push(0).drop_last() =~= text::encode_utf16(device.id));
    }
}

/// What is picked can be used where it is nothing or is connected, and is shown
/// by its label, with a remark where it is not.
pub proof fn lemma_picked(selected: Option<AudioDeviceView>, devices: Seq<AudioDeviceView>)
    ensures
        selected is None ==> pick_is_available(selected, devices) && pick_text(selected, devices)
            == "Keep current device"@,
        selected matches Some(device) ==> {
            let connected = exists|i: int|
                0 <= i < devices.len() && (#[trigger] devices[i]).id == device.id;
            &&& pick_is_available(selected, devices) <==> connected
            &&& connected ==> pick_text(selected, devices) == device.label()
            &&& !connected ==> pick_text(selected, devices) == device.label() + " (unavailable)"@
        },
{
}

/// The devices that a layout makes the default ones. Nothing is set unless
/// every one of them is active.
pub fn apply_layout(
    layout: &MonitorLayout,
    playback: &Vec<AudioDeviceConfig>,
    microphones: &Vec<AudioDeviceConfig>,
) -> (r: Result<Vec<DefaultDevice>, String>)
    ensures
        r is Ok <==> audio_fault(
            layout@,
            order::views(playback@),
            order::views(microphones@),
        ) is None,
        r matches Ok(devices) ==> order::views(devices@) == chosen_devices(layout@),
        r matches Err(message) ==> audio_fault(
            layout@,
            order::views(playback@),
            order::views(microphones@),
        ) == Some(message@),
{
    if let Some(device) = &layout.playback_device {
        if let Err(message) = ensure_available(device, playback, "playback") {
            return Err(message);
        }
    }
    if let Some(device) = &layout.microphone_device {
        if let Err(message) = ensure_available(device, microphones, "microphone") {
            return Err(message);
        }
    }
    let mut devices: Vec<DefaultDevice> = Vec::new();
    proof {
        assert(order::views(devices@) =~= Seq::empty());
    }
    if let Some(device) = &layout.playback_device {
        let chosen = make_default(device, "could not select playback device");
        devices.push(chosen);
        proof {
            assert(order::views(devices@) =~= seq![chosen@]);
        }
    }
    let ghost first = devices@;
    if let Some(device) = &layout.microphone_device {
        let chosen = make_default(device, "could not select microphone");
        devices.push(chosen);
        proof {
            assert(order::views(devices@) =~= order::views(first).push(chosen@));
        }
    }
    proof {
        assert(order::views(devices@) =~= chosen_devices(layout@));
    }
    Ok(devices)
}

// ---------------------------------------------------------------------------
// Picking a device
// ---------------------------------------------------------------------------

/// Whether what is picked can be used: nothing, or an active device.
pub open spec fn pick_is_available(
    selected: Option<AudioDeviceView>,
    devices: Seq<AudioDeviceView>,
) -> bool {
    selected matches Some(device) ==> is_active(devices, device.id)
}

/// What is shown for what is picked.
pub open spec fn pick_text(
    selected: Option<AudioDeviceView>,
    devices: Seq<AudioDeviceView>,
) -> Seq<char> {
    match selected {
        None => "Keep current device"@,
        Some(device) => if is_active(devices, device.id) {
            device.label()
        } else {
            device.label() + " (unavailable)"@
        },
    }
}

/// Whether what is picked can be used, and what is shown for it.
pub fn picked_device(
    selected: &Option<AudioDeviceConfig>,
    devices: &Vec<AudioDeviceConfig>,
) -> (r: (bool, String))
    ensures
        r.0 == pick_is_available(model::option_view(*selected), order::views(devices@)),
        r.1@ == pick_text(model::option_view(*selected), order::views(devices@)),
{
    match selected {
        None => (true, "Keep current device".to_string()),
        Some(device) => {
            let available = holds_device(devices, device.id.as_str());
            let mut shown = device.label().to_string();
            if !available {
                shown.append(" (unavailable)");
            }
            (available, shown)
        },
    }
}

/// What is shown for a device that can be picked.
pub open spec fn option_text(device: AudioDeviceView, default_id: Option<Seq<char>>) -> Seq<char> {
    if default_id == Some(device.id) {
        device.label() + " (current default)"@
    } else {
        device.label()
    }
}

/// The default device, and no other, is marked as such.
pub proof fn lemma_options(device: AudioDeviceView, id: Seq<char>)
    ensures
        option_text(device, Some(device.id)) == device.label() + " (current default)"@,
        id != device.id ==> option_text(device, Some(id)) == device.label(),
        option_text(device, None) == device.label(),
{
}

/// What is shown for a device that can be picked.
pub fn option_label(device: &AudioDeviceConfig, default_id: &Option<String>) -> (r: String)
    ensures
        r@ == option_text(device@, model::option_view(*default_id)),
{
    let mut shown = device.label().to_string();
    if let Some(id) = default_id {
        if text::same_text(id.as_str(), device.id.as_str()) {
            shown.append(" (current default)");
        }
    }
    shown
}

} // verus!
