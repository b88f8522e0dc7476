//! Saved layouts: monitors, audio devices, keyboard and controller shortcuts.

use vstd::prelude::*;
use vstd::string::*;
use crate::order;
use crate::text;

verus! {

/// Where a Windows display source is: the adapter's high and low part and the
/// source's number on it.
pub type SourceKey = (i32, u32, u32);

// ---------------------------------------------------------------------------
// Refresh rates
// ---------------------------------------------------------------------------

/// The bit pattern of `1.0` in single precision.
pub const ONE_HERTZ_BITS: u32 = 0x3F80_0000;

/// The bit pattern of positive infinity in single precision.
pub const INFINITE_BITS: u32 = 0x7F80_0000;

/// A refresh rate in hertz, held as the bits of an IEEE 754 single.
///
/// Bit patterns from that of `1.0` up to that of infinity are exactly the
/// singles that are at least one, in their numeric order.
#[derive(Debug, Clone, Copy, PartialEq, Eq, Structural)]
pub struct Hertz {
    pub bits: u32,
}

impl Hertz {
    /// Whether the rate is a number of at least one hertz; infinity counts.
    pub open spec fn at_least_one(self) -> bool {
        ONE_HERTZ_BITS <= self.bits <= INFINITE_BITS
    }

    /// Whether the rate is finite and at least one hertz.
    pub open spec fn is_usable(self) -> bool {
        ONE_HERTZ_BITS <= self.bits < INFINITE_BITS
    }

    /// Whether the rate is at least one hertz.
    pub fn reaches_one(self) -> (r: bool)
        ensures
            r == self.at_least_one(),
    {
        ONE_HERTZ_BITS <= self.bits && self.bits <= INFINITE_BITS
    }

    /// Whether a layout may ask for this rate.
    pub fn usable(self) -> (r: bool)
        ensures
            r == self.is_usable(),
    {
        ONE_HERTZ_BITS <= self.bits && self.bits < INFINITE_BITS
    }
}

// ---------------------------------------------------------------------------
// Monitors
// ---------------------------------------------------------------------------

/// What tells one monitor from another.
#[derive(Debug)]
pub struct MonitorIdentity {
    pub device_path: String,
    pub adapter_low: u32,
    pub adapter_high: i32,
    pub target_id: u32,
}

/// The contents of a [`MonitorIdentity`].
#[verifier::ext_equal]
pub struct IdentityView {
    pub device_path: Seq<char>,
    pub adapter_low: u32,
    pub adapter_high: i32,
    pub target_id: u32,
}

impl View for MonitorIdentity {
    type V = IdentityView;

    open spec fn view(&self) -> IdentityView {
        IdentityView {
            device_path: self.device_path@,
            adapter_low: self.adapter_low,
            adapter_high: self.adapter_high,
            target_id: self.target_id,
        }
    }
}

impl Clone for MonitorIdentity {
    fn clone(&self) -> (r: Self)
        ensures
            r@ == self@,
    {
        MonitorIdentity {
            device_path: self.device_path.clone(),
            adapter_low: self.adapter_low,
            adapter_high: self.adapter_high,
            target_id: self.target_id,
        }
    }
}

impl IdentityView {
    /// The text by which a monitor is recognised: its device path in lower
    /// case, or its adapter and target where it has no path.
    pub open spec fn stable_key(self) -> Seq<char> {
        if self.device_path.len() > 0 {
            text::lower(self.device_path)
        } else {
            "adapter:"@ + text::signed_decimal(self.adapter_high as int) + ":"@ + text::decimal(
                self.adapter_low as nat,
            ) + ":target:"@ + text::decimal(self.target_id as nat)
        }
    }

    /// Whether two identities name one monitor: by device path where both have
    /// one, otherwise by adapter and target.
    pub open spec fn matches(self, other: IdentityView) -> bool {
        if self.device_path.len() > 0 && other.device_path.len() > 0 {
            text::lower(self.device_path) == text::lower(other.device_path)
        } else {
            self.adapter_low == other.adapter_low && self.adapter_high == other.adapter_high
                && self.target_id == other.target_id
        }
    }

    /// What the user is shown: the second and third `#`-separated part of the
    /// device path, the whole path where it has fewer, or the adapter and
    /// target where there is no path.
    pub open spec fn display_label(self) -> Seq<char> {
        let path = self.device_path;
        if path.len() == 0 {
            "adapter "@ + text::signed_decimal(self.adapter_high as int) + ":"@ + text::decimal(
                self.adapter_low as nat,
            ) + " / target "@ + text::decimal(self.target_id as nat)
        } else {
            let first = text::find_from(path, '#', 0);
            let second = text::find_from(path, '#', first + 1);
            let third = text::find_from(path, '#', second + 1);
            if first < path.len() && second < path.len() {
                path.subrange(first + 1, second) + " / "@ + path.subrange(second + 1, third)
            } else {
                path
            }
        }
    }
}

/// A monitor with a device path is recognised by that path, capitals and small
/// letters alike, and one without by its adapter and target. Two monitors that
/// both have a path are one where the paths agree in that way, whatever adapter
/// and target say; otherwise adapter and target decide.
pub proof fn lemma_identities(a: IdentityView, b: IdentityView)
    ensures
        a.device_path.len() > 0 ==> a.stable_key() == text::lower(a.device_path),
        a.device_path.len() == 0 ==> a.stable_key() == "adapter:"@ + text::signed_decimal(
            a.adapter_high as int,
        ) + ":"@ + text::decimal(a.adapter_low as nat) + ":target:"@ + text::decimal(
            a.target_id as nat,
        ),
        a.device_path.len() > 0 && b.device_path.len() > 0 ==> (a.matches(b) <==> text::lower(
            a.device_path,
        ) == text::lower(b.device_path)),
        a.device_path.len() == 0 || b.device_path.len() == 0 ==> (a.matches(b) <==> (
            a.adapter_low,
            a.adapter_high,
            a.target_id,
        ) == (b.adapter_low, b.adapter_high, b.target_id)),
{
}

/// A device path of the form `a#b#c#d` is shown as `b / c`, one with fewer parts
/// as it is, and a monitor without a path by its adapter and target.
pub proof fn lemma_display_labels(
    identity: IdentityView,
    a: Seq<char>,
    b: Seq<char>,
    c: Seq<char>,
    d: Seq<char>,
)
    ensures
        identity.device_path.len() == 0 ==> identity.display_label() == "adapter "@
            + text::signed_decimal(identity.adapter_high as int) + ":"@ + text::decimal(
            identity.adapter_low as nat,
        ) + " / target "@ + text::decimal(identity.target_id as nat),
        !identity.device_path.contains('#') && identity.device_path.len() > 0
            ==> identity.display_label() == identity.device_path,
        !a.contains('#') && !b.contains('#') && identity.device_path == a + seq!['#'] + b
            ==> identity.display_label() == identity.device_path,
        !a.contains('#') && !b.contains('#') && !c.contains('#') && identity.device_path == a
            + seq!['#'] + b + seq!['#'] + c ==> identity.display_label() == b + " / "@ + c,
        !a.contains('#') && !b.contains('#') && !c.contains('#') && identity.device_path == a
            + seq!['#'] + b + seq!['#'] + c + seq!['#'] + d ==> identity.display_label() == b
            + " / "@ + c,
{
    let path = identity.device_path;
    let first = text::find_from(path, '#', 0);
    let second = text::find_from(path, '#', first + 1);
    let third = text::find_from(path, '#', second + 1);
    assert(path.skip(0) =~= path);
    text::lemma_find_from(path, '#', 0);
    if first < path.len() {
        text::lemma_find_from(path, '#', first + 1);
        if second < path.len() {
            text::lemma_find_from(path, '#', second + 1);
        }
        assert(path.contains(path[first]));
    }
    if !a.contains('#') && !b.contains('#') && path == a + seq!['#'] + b {
        lemma_mark_after(path, 0, a, b);
        assert(path.skip(a.len() as int + 1) =~= b);
        lemma_no_mark_after(path, a.len() as int + 1, b);
    }
    if !a.contains('#') && !b.contains('#') && !c.contains('#') {
        if path == a + seq!['#'] + b + seq!['#'] + c {
            let rest = b + seq!['#'] + c;
            assert(path =~= a + seq!['#'] + rest);
            lemma_mark_after(path, 0, a, rest);
            assert(path.skip(a.len() as int + 1) =~= b + seq!['#'] + c);
            lemma_mark_after(path, a.len() as int + 1, b, c);
            assert(path.skip(a.len() as int + b.len() as int + 2) =~= c);
            lemma_no_mark_after(path, a.len() as int + b.len() as int + 2, c);
            assert(path.subrange(first + 1, second) =~= b);
            assert(path.subrange(second + 1, third) =~= c);
        }
        if path == a + seq!['#'] + b + seq!['#'] + c + seq!['#'] + d {
            let tail = c + seq!['#'] + d;
            let rest = b + seq!['#'] + tail;
            assert(path =~= a + seq!['#'] + rest);
            lemma_mark_after(path, 0, a, rest);
            assert(path.skip(a.len() as int + 1) =~= b + seq!['#'] + tail);
            lemma_mark_after(path, a.len() as int + 1, b, tail);
            assert(path.skip(a.len() as int + b.len() as int + 2) =~= c + seq!['#'] + d);
            lemma_mark_after(path, a.len() as int + b.len() as int + 2, c, d);
            assert(path.subrange(first + 1, second) =~= b);
            assert(path.subrange(second + 1, third) =~= c);
        }
    }
}

proof fn lemma_mark_after(path: Seq<char>, from: int, part: Seq<char>, rest: Seq<char>)
    requires
        0 <= from <= path.len(),
        path.skip(from) == part + seq!['#'] + rest,
        !part.contains('#'),
    ensures
        text::find_from(path, '#', from) == from + part.len(),
{
    text::lemma_find_from(path, '#', from);
    let found = text::find_from(path, '#', from);
    let whole = path.skip(from);
    assert(whole.len() == path.len() - from);
    assert(whole.len() == part.len() + 1 + rest.len());
    assert(whole[part.len() as int] == '#');
    assert(path[from + part.len()] == '#');
    if found < from + part.len() {
        assert(whole[found - from] == path[found]);
        assert(part[found - from] == '#');
    }
}

proof fn lemma_no_mark_after(path: Seq<char>, from: int, part: Seq<char>)
    requires
        0 <= from <= path.len(),
        path.skip(from) == part,
        !part.contains('#'),
    ensures
        text::find_from(path, '#', from) == path.len(),
{
    text::lemma_find_from(path, '#', from);
    let found = text::find_from(path, '#', from);
    assert(path.skip(from).len() == path.len() - from);
    if found < path.len() {
        assert(path.skip(from)[found - from] == path[found]);
    }
}

impl MonitorIdentity {
    /// The text by which this monitor is recognised.
    pub fn stable_key(&self) -> (r: String)
        ensures
            r@ == self@.stable_key(),
    {
        if !self.device_path.as_str().is_empty() {
            text::lowercase(self.device_path.as_str())
        } else {
            let mut out = "adapter:".to_string();
            out.append(text::signed_decimal_text(self.adapter_high as i64).as_str());
            out.append(":");
            out.append(text::decimal_text(self.adapter_low as u64).as_str());
            out.append(":target:");
            out.append(text::decimal_text(self.target_id as u64).as_str());
            out
        }
    }

    /// Whether two identities name one monitor.
    pub fn matches(&self, other: &Self) -> (r: bool)
        ensures
            r == self@.matches(other@),
    {
        if !self.device_path.as_str().is_empty() && !other.device_path.as_str().is_empty() {
            text::same_text_ignoring_case(self.device_path.as_str(), other.device_path.as_str())
        } else {
            self.adapter_low == other.adapter_low && self.adapter_high == other.adapter_high
                && self.target_id == other.target_id
        }
    }

    /// What the user is shown for this monitor.
    pub fn display_label(&self) -> (r: String)
        ensures
            r@ == self@.display_label(),
    {
        if self.device_path.as_str().is_empty() {
            let mut out = "adapter ".to_string();
            out.append(text::signed_decimal_text(self.adapter_high as i64).as_str());
            out.append(":");
            out.append(text::decimal_text(self.adapter_low as u64).as_str());
            out.append(" / target ");
            out.append(text::decimal_text(self.target_id as u64).as_str());
            return out;
        }
        // The trailing interface GUID is shared; hardware and instance are unique.
        let path = text::chars_of(self.device_path.as_str());
        let first = text::find_char(&path, '#', 0);
        if first < path.len() {
            let second = text::find_char(&path, '#', first + 1);
            if second < path.len() {
                let third = text::find_char(&path, '#', second + 1);
                let mut out = text::text_between(&path, first + 1, second);
                out.append(" / ");
                out.append(text::text_between(&path, second + 1, third).as_str());
                return out;
            }
        }
        self.device_path.clone()
    }
}

proof fn lemma_key_without_path(identity: IdentityView)
    requires
        identity.device_path.len() == 0,
    ensures
        identity.stable_key() == "adapter:"@ + (text::signed_decimal(identity.adapter_high as int)
            + seq![':'] + (text::decimal(identity.adapter_low as nat) + seq![':'] + ("target:"@
            + text::decimal(identity.target_id as nat)))),
{
    reveal_strlit(":");
    reveal_strlit(":target:");
    reveal_strlit("target:");
    assert(":"@ =~= seq![':']);
    assert(":target:"@ =~= seq![':'] + "target:"@);
    assert(identity.stable_key() =~= "adapter:"@ + (text::signed_decimal(
        identity.adapter_high as int,
    ) + seq![':'] + (text::decimal(identity.adapter_low as nat) + seq![':'] + ("target:"@
        + text::decimal(identity.target_id as nat)))));
}

proof fn lemma_keys_without_path(a: IdentityView, b: IdentityView)
    requires
        a.device_path.len() == 0,
        b.device_path.len() == 0,
        a.stable_key() == b.stable_key(),
    ensures
        a.matches(b),
{
    let high_a = text::signed_decimal(a.adapter_high as int);
    let high_b = text::signed_decimal(b.adapter_high as int);
    let low_a = text::decimal(a.adapter_low as nat);
    let low_b = text::decimal(b.adapter_low as nat);
    let target_a = text::decimal(a.target_id as nat);
    let target_b = text::decimal(b.target_id as nat);
    let tail_a = "target:"@ + target_a;
    let tail_b = "target:"@ + target_b;
    let rest_a = low_a + seq![':'] + tail_a;
    let rest_b = low_b + seq![':'] + tail_b;
    let whole_a = high_a + seq![':'] + rest_a;
    let whole_b = high_b + seq![':'] + rest_b;
    lemma_key_without_path(a);
    lemma_key_without_path(b);
    let head = "adapter:"@;
    assert(a.stable_key().skip(head.len() as int) =~= whole_a);
    assert(b.stable_key().skip(head.len() as int) =~= whole_b);
    text::lemma_signed_decimal(a.adapter_high as int, b.adapter_high as int);
    text::lemma_signed_decimal(b.adapter_high as int, a.adapter_high as int);
    text::lemma_first_mark(high_a, rest_a, high_b, rest_b, ':');
    text::lemma_decimal_digits(a.adapter_low as nat);
    text::lemma_decimal_digits(b.adapter_low as nat);
    text::lemma_first_mark(low_a, tail_a, low_b, tail_b, ':');
    text::lemma_decimal_tells_apart(a.adapter_low as nat, b.adapter_low as nat);
    let front = "target:"@;
    assert(tail_a.skip(front.len() as int) =~= target_a);
    assert(tail_b.skip(front.len() as int) =~= target_b);
    text::lemma_decimal_tells_apart(a.target_id as nat, b.target_id as nat);
}

/// Matching does not depend on which of the two is asked, and every monitor
/// matches itself. Of two monitors that both carry a device path, or both
/// carry none, those match that have the same stable key; without a path that
/// means the same adapter and target.
pub proof fn lemma_matching(a: IdentityView, b: IdentityView)
    ensures
        a.matches(a),
        a.matches(b) == b.matches(a),
        (a.device_path.len() > 0) == (b.device_path.len() > 0) ==> (a.matches(b) <==> a.stable_key()
            == b.stable_key()),
        a.device_path.len() == 0 && b.device_path.len() == 0 ==> (a.matches(b) <==> a.adapter_low
            == b.adapter_low && a.adapter_high == b.adapter_high && a.target_id == b.target_id),
{
    if a.device_path.len() == 0 && b.device_path.len() == 0 && a.stable_key()
        == b.stable_key() {
        lemma_keys_without_path(a, b);
    }
}

/// Matching is passed on among monitors that all carry a device path, and
/// among monitors that carry none, so each kind falls into classes of the same
/// monitor.
pub proof fn lemma_matching_is_transitive(a: IdentityView, b: IdentityView, c: IdentityView)
    requires
        (a.device_path.len() > 0) == (b.device_path.len() > 0),
        (b.device_path.len() > 0) == (c.device_path.len() > 0),
        a.matches(b),
        b.matches(c),
    ensures
        a.matches(c),
{
}

/// One monitor of a layout.
#[derive(Debug)]
pub struct MonitorConfig {
    pub identity: MonitorIdentity,
    pub friendly_name: String,
    pub enabled: bool,
    pub source_adapter_low: u32,
    pub source_adapter_high: i32,
    pub source_id: u32,
    pub clone_group: Option<u32>,
    /// Raw `DISPLAYCONFIG_ROTATION`; `None` preserves the current value.
    pub rotation: Option<i32>,
    /// Source-to-target `DISPLAYCONFIG_SCALING`, not DPI scaling.
    pub scaling: Option<i32>,
    pub x: i32,
    pub y: i32,
    pub width: u32,
    pub height: u32,
    pub refresh_hz: Hertz,
    /// Exact captured refresh rate, retained while it matches `refresh_hz`.
    pub refresh_numerator: Option<u32>,
    pub refresh_denominator: Option<u32>,
}

/// The contents of a [`MonitorConfig`].
#[verifier::ext_equal]
pub struct MonitorView {
    pub identity: IdentityView,
    pub friendly_name: Seq<char>,
    pub enabled: bool,
    pub source_adapter_low: u32,
    pub source_adapter_high: i32,
    pub source_id: u32,
    pub clone_group: Option<u32>,
    pub rotation: Option<i32>,
    pub scaling: Option<i32>,
    pub x: i32,
    pub y: i32,
    pub width: u32,
    pub height: u32,
    pub refresh_hz: Hertz,
    pub refresh_numerator: Option<u32>,
    pub refresh_denominator: Option<u32>,
}

impl View for MonitorConfig {
    type V = MonitorView;

    open spec fn view(&self) -> MonitorView {
        MonitorView {
            identity: self.identity@,
            friendly_name: self.friendly_name@,
            enabled: self.enabled,
            source_adapter_low: self.source_adapter_low,
            source_adapter_high: self.source_adapter_high,
            source_id: self.source_id,
            clone_group: self.clone_group,
            rotation: self.rotation,
            scaling: self.scaling,
            x: self.x,
            y: self.y,
            width: self.width,
            height: self.height,
            refresh_hz: self.refresh_hz,
            refresh_numerator: self.refresh_numerator,
            refresh_denominator: self.refresh_denominator,
        }
    }
}

impl Clone for MonitorConfig {
    fn clone(&self) -> (r: Self)
        ensures
            r@ == self@,
    {
        MonitorConfig {
            identity: self.identity.clone(),
            friendly_name: self.friendly_name.clone(),
            enabled: self.enabled,
            source_adapter_low: self.source_adapter_low,
            source_adapter_high: self.source_adapter_high,
            source_id: self.source_id,
            clone_group: self.clone_group,
            rotation: self.rotation,
            scaling: self.scaling,
            x: self.x,
            y: self.y,
            width: self.width,
            height: self.height,
            refresh_hz: self.refresh_hz,
            refresh_numerator: self.refresh_numerator,
            refresh_denominator: self.refresh_denominator,
        }
    }
}

impl MonitorView {
    /// The display source from which the monitor was captured.
    pub open spec fn source_key(self) -> SourceKey {
        (self.source_adapter_high, self.source_adapter_low, self.source_id)
    }

    /// Position and source resolution.
    pub open spec fn geometry(self) -> (i32, i32, u32, u32) {
        (self.x, self.y, self.width, self.height)
    }

    /// Whether the monitor is the primary one of its layout.
    pub open spec fn is_primary(self) -> bool {
        self.enabled && self.x == 0 && self.y == 0
    }

    /// Width and height as they appear on the desktop: swapped where the
    /// monitor is turned by a quarter.
    pub open spec fn display_size(self) -> (u32, u32) {
        if self.rotation matches Some(rotation) && (rotation == 2 || rotation == 4) {
            (self.height, self.width)
        } else {
            (self.width, self.height)
        }
    }
}

/// A monitor turned by a quarter is as wide as it was high; the other
/// orientations, and none, leave it as it is.
pub proof fn lemma_display_size(monitor: MonitorView)
    ensures
        monitor.rotation == Some(2i32) || monitor.rotation == Some(4i32) ==> monitor.display_size()
            == (monitor.height, monitor.width),
        monitor.rotation != Some(2i32) && monitor.rotation != Some(4i32) ==> monitor.display_size()
            == (monitor.width, monitor.height),
{
}

/// The primary monitor is the one that is on at the origin.
pub proof fn lemma_primary(monitor: MonitorView)
    ensures
        monitor.is_primary() <==> monitor.enabled && monitor.geometry().0 == 0
            && monitor.geometry().1 == 0,
        monitor.is_primary() ==> monitor.x == 0 && monitor.y == 0,
        monitor.geometry() == (monitor.x, monitor.y, monitor.width, monitor.height),
{
}

/// Sources differ where their adapter or their number on it differs.
pub proof fn lemma_source_keys(a: MonitorView, b: MonitorView)
    ensures
        a.source_key() == b.source_key() <==> a.source_adapter_low == b.source_adapter_low
            && a.source_adapter_high == b.source_adapter_high && a.source_id == b.source_id,
        a.source_key() == (a.source_adapter_high, a.source_adapter_low, a.source_id),
{
}

/// Monitors are placed together exactly where they are in one clone group, or
/// are in none and have one stable key.
pub proof fn lemma_group_keys(a: MonitorView, b: MonitorView)
    ensures
        a.group_key() == b.group_key() <==> (a.clone_group == b.clone_group && (
        a.clone_group is None ==> a.identity.stable_key() == b.identity.stable_key())),
{
}

/// Monitors further left come first, of those the ones further up, and of those
/// the ones whose name comes first.
pub proof fn lemma_monitor_order(a: MonitorView, b: MonitorView)
    ensures
        a.x < b.x ==> monitor_before(a, b) && !monitor_before(b, a),
        a.x == b.x && a.y < b.y ==> monitor_before(a, b) && !monitor_before(b, a),
        a.x == b.x && a.y == b.y ==> monitor_before(a, b) == text::text_before(
            a.friendly_name,
            b.friendly_name,
        ),
{
}

/// A rate counts from one hertz on; infinity counts but cannot be asked for.
/// The order of the bits is the order of the rates.
pub proof fn lemma_rates(rate: Hertz)
    ensures
        rate.at_least_one() <==> 0x3F80_0000 <= rate.bits && rate.bits <= 0x7F80_0000,
        rate.is_usable() <==> rate.at_least_one() && rate.bits != 0x7F80_0000,
{
}

impl MonitorConfig {
    /// The display source from which the monitor was captured.
    pub fn source_key(&self) -> (r: SourceKey)
        ensures
            r == self@.source_key(),
    {
        (self.source_adapter_high, self.source_adapter_low, self.source_id)
    }
}

/// Monitors are listed from left to right, then from top to bottom, then by
/// name.
pub open spec fn monitor_before(a: MonitorView, b: MonitorView) -> bool {
    if a.x != b.x {
        a.x < b.x
    } else if a.y != b.y {
        a.y < b.y
    } else {
        text::text_before(a.friendly_name, b.friendly_name)
    }
}

impl order::Ranked for MonitorConfig {
    open spec fn ranks_before(a: MonitorView, b: MonitorView) -> bool {
        monitor_before(a, b)
    }

    fn is_before(&self, other: &Self) -> (r: bool) {
        if self.x != other.x {
            self.x < other.x
        } else if self.y != other.y {
            self.y < other.y
        } else {
            text::comes_before(self.friendly_name.as_str(), other.friendly_name.as_str())
        }
    }

    proof fn lemma_strict_weak_order(a: MonitorView, b: MonitorView, c: MonitorView) {
        order::lemma_text_order(a.friendly_name, b.friendly_name, c.friendly_name);
    }
}

// ---------------------------------------------------------------------------
// Audio devices
// ---------------------------------------------------------------------------

/// A Windows audio endpoint.
#[derive(Debug)]
pub struct AudioDeviceConfig {
    pub id: String,
    pub name: String,
}

/// The contents of an [`AudioDeviceConfig`].
#[verifier::ext_equal]
pub struct AudioDeviceView {
    pub id: Seq<char>,
    pub name: Seq<char>,
}

impl View for AudioDeviceConfig {
    type V = AudioDeviceView;

    open spec fn view(&self) -> AudioDeviceView {
        AudioDeviceView { id: self.id@, name: self.name@ }
    }
}

impl Clone for AudioDeviceConfig {
    fn clone(&self) -> (r: Self)
        ensures
            r@ == self@,
    {
        AudioDeviceConfig { id: self.id.clone(), name: self.name.clone() }
    }
}

impl AudioDeviceView {
    /// The device's name, or its id where it has no name.
    pub open spec fn label(self) -> Seq<char> {
        if self.name.len() == 0 {
            self.id
        } else {
            self.name
        }
    }
}

/// A device is read out by its name, and by its id only where it has none.
/// Devices are listed by what is read out, capitals and small letters alike, and
/// those that read the same by their ids.
pub proof fn lemma_audio_devices(a: AudioDeviceView, b: AudioDeviceView)
    ensures
        a.name.len() > 0 ==> a.label() == a.name,
        a.name.len() == 0 ==> a.label() == a.id,
        text::lower(a.label()) != text::lower(b.label()) ==> (audio_device_before(a, b)
            <==> text::text_before(text::lower(a.label()), text::lower(b.label()))),
        text::lower(a.label()) == text::lower(b.label()) ==> (audio_device_before(a, b)
            <==> text::text_before(a.id, b.id)),
{
}

impl AudioDeviceConfig {
    /// The device's name, or its id where it has no name.
    pub fn label(&self) -> (r: &str)
        ensures
            r@ == self@.label(),
    {
        if self.name.as_str().is_empty() {
            self.id.as_str()
        } else {
            self.name.as_str()
        }
    }
}

/// Audio devices are listed by their label without regard to case, then by id.
pub open spec fn audio_device_before(a: AudioDeviceView, b: AudioDeviceView) -> bool {
    let left = text::lower(a.label());
    let right = text::lower(b.label());
    if left != right {
        text::text_before(left, right)
    } else {
        text::text_before(a.id, b.id)
    }
}

impl order::Ranked for AudioDeviceConfig {
    open spec fn ranks_before(a: AudioDeviceView, b: AudioDeviceView) -> bool {
        audio_device_before(a, b)
    }

    fn is_before(&self, other: &Self) -> (r: bool) {
        let left = text::lowercase(self.label());
        let right = text::lowercase(other.label());
        if left != right {
            text::comes_before(left.as_str(), right.as_str())
        } else {
            text::comes_before(self.id.as_str(), other.id.as_str())
        }
    }

    proof fn lemma_strict_weak_order(a: AudioDeviceView, b: AudioDeviceView, c: AudioDeviceView) {
        let (x, y, z) = (text::lower(a.label()), text::lower(b.label()), text::lower(c.label()));
        order::lemma_text_order(x, y, z);
        order::lemma_text_order(y, x, z);
        order::lemma_text_order(x, z, y);
        order::lemma_text_order(y, z, x);
        order::lemma_text_order(a.id, b.id, c.id);
    }
}

// ---------------------------------------------------------------------------
// Keyboard shortcuts
// ---------------------------------------------------------------------------

/// A key that can be part of a global shortcut.
#[derive(Debug, Clone, Copy, PartialEq, Eq, Structural)]
pub enum HotkeyKey {
    F1,
    F2,
    F3,
    F4,
    F5,
    F6,
    F7,
    F8,
    F9,
    F10,
    F11,
    F12,
    Num0,
    Num1,
    Num2,
    Num3,
    Num4,
    Num5,
    Num6,
    Num7,
    Num8,
    Num9,
}

impl HotkeyKey {
    /// The key's place in the list of all keys.
    pub open spec fn position(self) -> nat {
        match self {
            HotkeyKey::F1 => 0,
            HotkeyKey::F2 => 1,
            HotkeyKey::F3 => 2,
            HotkeyKey::F4 => 3,
            HotkeyKey::F5 => 4,
            HotkeyKey::F6 => 5,
            HotkeyKey::F7 => 6,
            HotkeyKey::F8 => 7,
            HotkeyKey::F9 => 8,
            HotkeyKey::F10 => 9,
            HotkeyKey::F11 => 10,
            HotkeyKey::F12 => 11,
            HotkeyKey::Num0 => 12,
            HotkeyKey::Num1 => 13,
            HotkeyKey::Num2 => 14,
            HotkeyKey::Num3 => 15,
            HotkeyKey::Num4 => 16,
            HotkeyKey::Num5 => 17,
            HotkeyKey::Num6 => 18,
            HotkeyKey::Num7 => 19,
            HotkeyKey::Num8 => 20,
            HotkeyKey::Num9 => 21,
        }
    }

    /// `F` and the number of a function key, or the digit itself.
    pub open spec fn label_text(self) -> Seq<char> {
        if self.position() < 12 {
            seq!['F'] + text::decimal(self.position() + 1)
        } else {
            text::decimal((self.position() - 12) as nat)
        }
    }

    /// Every key, function keys first.
    pub fn all() -> (r: Vec<HotkeyKey>)
        ensures
            r@.len() == 22,
            forall|i: int| 0 <= i < 22 ==> (#[trigger] r@[i]).position() == i,
    {
        vec![
            HotkeyKey::F1,
            HotkeyKey::F2,
            HotkeyKey::F3,
            HotkeyKey::F4,
            HotkeyKey::F5,
            HotkeyKey::F6,
            HotkeyKey::F7,
            HotkeyKey::F8,
            HotkeyKey::F9,
            HotkeyKey::F10,
            HotkeyKey::F11,
            HotkeyKey::F12,
            HotkeyKey::Num0,
            HotkeyKey::Num1,
            HotkeyKey::Num2,
            HotkeyKey::Num3,
            HotkeyKey::Num4,
            HotkeyKey::Num5,
            HotkeyKey::Num6,
            HotkeyKey::Num7,
            HotkeyKey::Num8,
            HotkeyKey::Num9,
        ]
    }

    /// The key's label.
    pub fn label(self) -> (r: &'static str)
        ensures
            r@ == self.label_text(),
    {
        proof {
            reveal_with_fuel(text::decimal, 3);
            reveal_strlit("F1");
            reveal_strlit("F2");
            reveal_strlit("F3");
            reveal_strlit("F4");
            reveal_strlit("F5");
            reveal_strlit("F6");
            reveal_strlit("F7");
            reveal_strlit("F8");
            reveal_strlit("F9");
            reveal_strlit("F10");
            reveal_strlit("F11");
            reveal_strlit("F12");
            reveal_strlit("0");
            reveal_strlit("1");
            reveal_strlit("2");
            reveal_strlit("3");
            reveal_strlit("4");
            reveal_strlit("5");
            reveal_strlit("6");
            reveal_strlit("7");
            reveal_strlit("8");
            reveal_strlit("9");
        }
        match self {
            HotkeyKey::F1 => "F1",
            HotkeyKey::F2 => "F2",
            HotkeyKey::F3 => "F3",
            HotkeyKey::F4 => "F4",
            HotkeyKey::F5 => "F5",
            HotkeyKey::F6 => "F6",
            HotkeyKey::F7 => "F7",
            HotkeyKey::F8 => "F8",
            HotkeyKey::F9 => "F9",
            HotkeyKey::F10 => "F10",
            HotkeyKey::F11 => "F11",
            HotkeyKey::F12 => "F12",
            HotkeyKey::Num0 => "0",
            HotkeyKey::Num1 => "1",
            HotkeyKey::Num2 => "2",
            HotkeyKey::Num3 => "3",
            HotkeyKey::Num4 => "4",
            HotkeyKey::Num5 => "5",
            HotkeyKey::Num6 => "6",
            HotkeyKey::Num7 => "7",
            HotkeyKey::Num8 => "8",
            HotkeyKey::Num9 => "9",
        }
    }

    /// The Windows virtual-key code: `0x70` on for function keys, `0x30` on for
    /// digits.
    pub open spec fn virtual_key(self) -> nat {
        if self.position() < 12 {
            0x70 + self.position()
        } else {
            (0x30 + self.position() - 12) as nat
        }
    }

    /// The Windows virtual-key code.
    pub fn vk(self) -> (r: u32)
        ensures
            r == self.virtual_key(),
    {
        match self {
            HotkeyKey::F1 => 0x70,
            HotkeyKey::F2 => 0x71,
            HotkeyKey::F3 => 0x72,
            HotkeyKey::F4 => 0x73,
            HotkeyKey::F5 => 0x74,
            HotkeyKey::F6 => 0x75,
            HotkeyKey::F7 => 0x76,
            HotkeyKey::F8 => 0x77,
            HotkeyKey::F9 => 0x78,
            HotkeyKey::F10 => 0x79,
            HotkeyKey::F11 => 0x7A,
            HotkeyKey::F12 => 0x7B,
            HotkeyKey::Num0 => 0x30,
            HotkeyKey::Num1 => 0x31,
            HotkeyKey::Num2 => 0x32,
            HotkeyKey::Num3 => 0x33,
            HotkeyKey::Num4 => 0x34,
            HotkeyKey::Num5 => 0x35,
            HotkeyKey::Num6 => 0x36,
            HotkeyKey::Num7 => 0x37,
            HotkeyKey::Num8 => 0x38,
            HotkeyKey::Num9 => 0x39,
        }
    }
}

/// Different keys have different virtual-key codes.
pub proof fn lemma_virtual_keys_differ(a: HotkeyKey, b: HotkeyKey)
    ensures
        a.virtual_key() == b.virtual_key() ==> a == b,
{
}

/// Function keys are numbered from F1 at code 0x70 on, digits from 0 at code 0x30
/// on, and each is labelled as on a keyboard.
pub proof fn lemma_keys()
    ensures
        HotkeyKey::F1.virtual_key() == 0x70 && HotkeyKey::F1.label_text() == "F1"@,
        HotkeyKey::F2.virtual_key() == 0x71 && HotkeyKey::F2.label_text() == "F2"@,
        HotkeyKey::F3.virtual_key() == 0x72 && HotkeyKey::F3.label_text() == "F3"@,
        HotkeyKey::F4.virtual_key() == 0x73 && HotkeyKey::F4.label_text() == "F4"@,
        HotkeyKey::F5.virtual_key() == 0x74 && HotkeyKey::F5.label_text() == "F5"@,
        HotkeyKey::F6.virtual_key() == 0x75 && HotkeyKey::F6.label_text() == "F6"@,
        HotkeyKey::F7.virtual_key() == 0x76 && HotkeyKey::F7.label_text() == "F7"@,
        HotkeyKey::F8.virtual_key() == 0x77 && HotkeyKey::F8.label_text() == "F8"@,
        HotkeyKey::F9.virtual_key() == 0x78 && HotkeyKey::F9.label_text() == "F9"@,
        HotkeyKey::F10.virtual_key() == 0x79 && HotkeyKey::F10.label_text() == "F10"@,
        HotkeyKey::F11.virtual_key() == 0x7A && HotkeyKey::F11.label_text() == "F11"@,
        HotkeyKey::F12.virtual_key() == 0x7B && HotkeyKey::F12.label_text() == "F12"@,
        HotkeyKey::Num0.virtual_key() == 0x30 && HotkeyKey::Num0.label_text() == "0"@,
        HotkeyKey::Num1.virtual_key() == 0x31 && HotkeyKey::Num1.label_text() == "1"@,
        HotkeyKey::Num2.virtual_key() == 0x32 && HotkeyKey::Num2.label_text() == "2"@,
        HotkeyKey::Num3.virtual_key() == 0x33 && HotkeyKey::Num3.label_text() == "3"@,
        HotkeyKey::Num4.virtual_key() == 0x34 && HotkeyKey::Num4.label_text() == "4"@,
        HotkeyKey::Num5.virtual_key() == 0x35 && HotkeyKey::Num5.label_text() == "5"@,
        HotkeyKey::Num6.virtual_key() == 0x36 && HotkeyKey::Num6.label_text() == "6"@,
        HotkeyKey::Num7.virtual_key() == 0x37 && HotkeyKey::Num7.label_text() == "7"@,
        HotkeyKey::Num8.virtual_key() == 0x38 && HotkeyKey::Num8.label_text() == "8"@,
        HotkeyKey::Num9.virtual_key() == 0x39 && HotkeyKey::Num9.label_text() == "9"@,
{
    reveal_with_fuel(text::decimal, 3);
    reveal_strlit("F1");
    reveal_strlit("F2");
    reveal_strlit("F3");
    reveal_strlit("F4");
    reveal_strlit("F5");
    reveal_strlit("F6");
    reveal_strlit("F7");
    reveal_strlit("F8");
    reveal_strlit("F9");
    reveal_strlit("F10");
    reveal_strlit("F11");
    reveal_strlit("F12");
    reveal_strlit("0");
    reveal_strlit("1");
    reveal_strlit("2");
    reveal_strlit("3");
    reveal_strlit("4");
    reveal_strlit("5");
    reveal_strlit("6");
    reveal_strlit("7");
    reveal_strlit("8");
    reveal_strlit("9");
}

/// A global keyboard shortcut.
#[derive(Debug, Clone, Copy, PartialEq, Eq, Structural)]
pub struct HotkeyBinding {
    pub ctrl: bool,
    pub alt: bool,
    pub shift: bool,
    pub win: bool,
    pub key: HotkeyKey,
}

impl Default for HotkeyBinding {
    fn default() -> (r: Self)
        ensures
            r.ctrl && r.alt && !r.shift && !r.win && r.key == HotkeyKey::F1,
    {
        HotkeyBinding { ctrl: true, alt: true, shift: false, win: false, key: HotkeyKey::F1 }
    }
}

impl HotkeyBinding {
    /// Whether any modifier is part of the shortcut.
    pub open spec fn is_modified(self) -> bool {
        self.ctrl || self.alt || self.shift || self.win
    }

    /// The modifiers in their usual order, then the key, with `+` between.
    pub open spec fn label_text(self) -> Seq<char> {
        (if self.ctrl { "Ctrl+"@ } else { Seq::empty() })
            + (if self.alt { "Alt+"@ } else { Seq::empty() })
            + (if self.shift { "Shift+"@ } else { Seq::empty() })
            + (if self.win { "Win+"@ } else { Seq::empty() })
            + self.key.label_text()
    }

    /// Whether any modifier is part of the shortcut.
    pub fn has_modifier(self) -> (r: bool)
        ensures
            r == self.is_modified(),
    {
        self.ctrl || self.alt || self.shift || self.win
    }

    /// The shortcut as the user reads it.
    pub fn label(self) -> (r: String)
        ensures
            r@ == self.label_text(),
    {
        let mut out = String::new();
        if self.ctrl {
            out.append("Ctrl+");
        }
        if self.alt {
            out.append("Alt+");
        }
        if self.shift {
            out.append("Shift+");
        }
        if self.win {
            out.append("Win+");
        }
        out.append(self.key.label());
        proof {
            assert(out@ =~= self.label_text());
        }
        out
    }
}

/// A shortcut is read out with Ctrl, Alt, Shift and Win in this order, each
/// followed by a plus, and then the key.
pub proof fn lemma_shortcut_labels(binding: HotkeyBinding)
    ensures
        binding.ctrl ==> binding.label_text() == "Ctrl+"@ + (HotkeyBinding {
            ctrl: false,
            ..binding
        }).label_text(),
        !binding.ctrl && binding.alt ==> binding.label_text() == "Alt+"@ + (HotkeyBinding {
            alt: false,
            ..binding
        }).label_text(),
        !binding.ctrl && !binding.alt && binding.shift ==> binding.label_text() == "Shift+"@ + (
        HotkeyBinding { shift: false, ..binding }).label_text(),
        !binding.ctrl && !binding.alt && !binding.shift && binding.win ==> binding.label_text()
            == "Win+"@ + (HotkeyBinding { win: false, ..binding }).label_text(),
        !binding.ctrl && !binding.alt && !binding.shift && !binding.win ==> binding.label_text()
            == binding.key.label_text(),
        binding.is_modified() <==> !(!binding.ctrl && !binding.alt && !binding.shift
            && !binding.win),
{
    let ctrl = if binding.ctrl { "Ctrl+"@ } else { Seq::empty() };
    let alt = if binding.alt { "Alt+"@ } else { Seq::empty() };
    let shift = if binding.shift { "Shift+"@ } else { Seq::empty() };
    let win = if binding.win { "Win+"@ } else { Seq::empty() };
    lemma_parts_in_order(ctrl, alt, shift, win, binding.key.label_text());
}

proof fn lemma_parts_in_order(
    a: Seq<char>,
    b: Seq<char>,
    c: Seq<char>,
    d: Seq<char>,
    e: Seq<char>,
)
    ensures
        ({
            let none = Seq::<char>::empty();
            &&& a + b + c + d + e == a + (none + b + c + d + e)
            &&& none + b + c + d + e == b + (none + none + c + d + e)
            &&& none + none + c + d + e == c + (none + none + none + d + e)
            &&& none + none + none + d + e == d + (none + none + none + none + e)
            &&& none + none + none + none + e == e
        }),
{
    let none = Seq::<char>::empty();
    assert(none + none =~= none);
    assert(none + b =~= b);
    assert(none + c =~= c);
    assert(none + d =~= d);
    assert(none + e =~= e);
    assert(a + b + c + d + e =~= a + (b + c + d + e));
    assert(b + c + d + e =~= b + (c + d + e));
    assert(c + d + e =~= c + (d + e));
}

// ---------------------------------------------------------------------------
// Controller shortcuts
// ---------------------------------------------------------------------------

/// A chord of controller buttons.
#[derive(Debug)]
pub struct ControllerBinding {
    pub vendor_id: u16,
    pub product_id: u16,
    pub device_name: String,
    pub buttons: Vec<u32>,
    pub button_labels: Vec<String>,
}

/// The contents of a [`ControllerBinding`].
#[verifier::ext_equal]
pub struct ControllerBindingView {
    pub vendor_id: u16,
    pub product_id: u16,
    pub device_name: Seq<char>,
    pub buttons: Seq<u32>,
    pub button_labels: Seq<Seq<char>>,
}

impl View for ControllerBinding {
    type V = ControllerBindingView;

    open spec fn view(&self) -> ControllerBindingView {
        ControllerBindingView {
            vendor_id: self.vendor_id,
            product_id: self.product_id,
            device_name: self.device_name@,
            buttons: self.buttons@,
            button_labels: text::texts(self.button_labels@),
        }
    }
}

impl Clone for ControllerBinding {
    fn clone(&self) -> (r: Self)
        ensures
            r@ == self@,
    {
        let mut labels: Vec<String> = Vec::new();
        let mut index: usize = 0;
        while index < self.button_labels.len()
            invariant
                index <= self.button_labels@.len(),
                labels@ == self.button_labels@.take(index as int),
            decreases self.button_labels@.len() - index,
        {
            labels.push(self.button_labels[index].clone());
            proof {
                assert(labels@ =~= self.button_labels@.take(index + 1));
            }
            index = index + 1;
        }
        let buttons = self.buttons.clone();
        proof {
            assert(labels@ =~= self.button_labels@);
            assert(buttons@ =~= self.buttons@);
        }
        ControllerBinding {
            vendor_id: self.vendor_id,
            product_id: self.product_id,
            device_name: self.device_name.clone(),
            buttons,
            button_labels: labels,
        }
    }
}

/// `Button` and the number of each button, counted from one.
pub open spec fn numbered_buttons(buttons: Seq<u32>) -> Seq<Seq<char>> {
    buttons.map_values(|button: u32| "Button "@ + text::decimal((button + 1) as nat))
}

impl ControllerBindingView {
    /// Whether every button has a name of its own.
    pub open spec fn is_labelled(self) -> bool {
        self.button_labels.len() == self.buttons.len() && self.button_labels.len() > 0
    }

    /// The chord's buttons with ` + ` between: by name where every button has
    /// one, by number otherwise.
    pub open spec fn button_label(self) -> Seq<char> {
        if self.is_labelled() {
            text::join(self.button_labels, " + "@)
        } else {
            text::join(numbered_buttons(self.buttons), " + "@)
        }
    }

    /// The device, or its ids where it has no name, then the chord.
    pub open spec fn label(self) -> Seq<char> {
        (if self.device_name.len() == 0 {
            "Controller "@ + text::hex4(self.vendor_id) + ":"@ + text::hex4(self.product_id)
        } else {
            self.device_name
        }) + ": "@ + self.button_label()
    }

    /// Whether the chord can be read out: the numbers shown for its buttons
    /// are one more than theirs.
    pub open spec fn can_be_shown(self) -> bool {
        self.is_labelled() || forall|i: int|
            0 <= i < self.buttons.len() ==> #[trigger] self.buttons[i] < u32::MAX
    }
}

/// A chord is read out by the names of its buttons where each has one, and
/// otherwise by their numbers, counted from one; before it stands the device, by
/// name or by its two ids.
pub proof fn lemma_chord_labels(binding: ControllerBindingView, at: int)
    requires
        0 <= at < binding.buttons.len(),
    ensures
        binding.button_labels.len() == binding.buttons.len() ==> binding.button_label()
            == text::join(binding.button_labels, " + "@),
        binding.button_labels.len() != binding.buttons.len() ==> binding.button_label()
            == text::join(numbered_buttons(binding.buttons), " + "@),
        numbered_buttons(binding.buttons).len() == binding.buttons.len(),
        numbered_buttons(binding.buttons)[at] == "Button "@ + text::decimal(
            (binding.buttons[at] + 1) as nat,
        ),
        binding.device_name.len() > 0 ==> binding.label() == binding.device_name + ": "@
            + binding.button_label(),
        binding.device_name.len() == 0 ==> binding.label() == "Controller "@ + text::hex4(
            binding.vendor_id,
        ) + ":"@ + text::hex4(binding.product_id) + ": "@ + binding.button_label(),
{
}

impl ControllerBinding {
    /// The chord's buttons as the user reads them.
    pub fn button_label(&self) -> (r: String)
        requires
            self@.can_be_shown(),
        ensures
            r@ == self@.button_label(),
    {
        if self.button_labels.len() == self.buttons.len() && !self.button_labels.is_empty() {
            text::join_texts(&self.button_labels, " + ")
        } else {
            let mut names: Vec<String> = Vec::new();
            let mut index: usize = 0;
            while index < self.buttons.len()
                invariant
                    index <= self.buttons@.len(),
                    !self@.is_labelled(),
                    self@.can_be_shown(),
                    text::texts(names@) == numbered_buttons(self.buttons@.take(index as int)),
                decreases self.buttons@.len() - index,
            {
                let button = self.buttons[index];
                let mut name = "Button ".to_string();
                proof {
                    assert(self@.buttons[index as int] < u32::MAX);
                }
                name.append(text::decimal_text((button + 1) as u64).as_str());
                let ghost before = names@;
                names.push(name);
                proof {
                    assert(text::texts(names@) =~= text::texts(before).push(name@));
                    assert(numbered_buttons(self.buttons@.take(index + 1)) =~= numbered_buttons(
                        self.buttons@.take(index as int),
                    ).push("Button "@ + text::decimal((button + 1) as nat)));
                }
                index = index + 1;
            }
            proof {
                assert(self.buttons@.take(self.buttons@.len() as int) =~= self.buttons@);
            }
            text::join_texts(&names, " + ")
        }
    }

    /// The device and the chord as the user reads them.
    pub fn label(&self) -> (r: String)
        requires
            self@.can_be_shown(),
        ensures
            r@ == self@.label(),
    {
        let mut out = if self.device_name.as_str().is_empty() {
            let mut device = "Controller ".to_string();
            device.append(text::hex4_text(self.vendor_id).as_str());
            device.append(":");
            device.append(text::hex4_text(self.product_id).as_str());
            device
        } else {
            self.device_name.clone()
        };
        out.append(": ");
        out.append(self.button_label().as_str());
        out
    }

    /// Whether the chord can be read out.
    pub fn can_be_shown(&self) -> (r: bool)
        ensures
            r == self@.can_be_shown(),
    {
        if self.button_labels.len() == self.buttons.len() && !self.button_labels.is_empty() {
            return true;
        }
        let mut at: usize = 0;
        while at < self.buttons.len()
            invariant
                at <= self.buttons@.len(),
                !self@.is_labelled(),
                forall|i: int| 0 <= i < at ==> #[trigger] self@.buttons[i] < u32::MAX,
            decreases self.buttons@.len() - at,
        {
            if self.buttons[at] == u32::MAX {
                assert(!(self@.buttons[at as int] < u32::MAX));
                return false;
            }
            at = at + 1;
        }
        true
    }

    /// Whether the chord has any button.
    pub fn is_valid(&self) -> (r: bool)
        ensures
            r == (self@.buttons.len() > 0),
    {
        !self.buttons.is_empty()
    }
}

// ---------------------------------------------------------------------------
// Layouts
// ---------------------------------------------------------------------------

/// A named arrangement of monitors with what goes along with it.
#[derive(Debug)]
pub struct MonitorLayout {
    pub name: String,
    pub monitors: Vec<MonitorConfig>,
    pub playback_device: Option<AudioDeviceConfig>,
    pub microphone_device: Option<AudioDeviceConfig>,
    pub hotkey: Option<HotkeyBinding>,
    pub controller_hotkey: Option<ControllerBinding>,
}

/// The contents of a [`MonitorLayout`].
#[verifier::ext_equal]
pub struct LayoutView {
    pub name: Seq<char>,
    pub monitors: Seq<MonitorView>,
    pub playback_device: Option<AudioDeviceView>,
    pub microphone_device: Option<AudioDeviceView>,
    pub hotkey: Option<HotkeyBinding>,
    pub controller_hotkey: Option<ControllerBindingView>,
}

/// The contents of a value, or of the text that says why there is none.
pub open spec fn result_view<T: View>(value: Result<T, String>) -> Result<T::V, Seq<char>> {
    match value {
        Ok(inner) => Ok(inner@),
        Err(error) => Err(error@),
    }
}

/// The contents of an optional value.
pub open spec fn option_view<T: View>(value: Option<T>) -> Option<T::V> {
    match value {
        Some(inner) => Some(inner@),
        None => None,
    }
}

impl View for MonitorLayout {
    type V = LayoutView;

    open spec fn view(&self) -> LayoutView {
        LayoutView {
            name: self.name@,
            monitors: order::views(self.monitors@),
            playback_device: option_view(self.playback_device),
            microphone_device: option_view(self.microphone_device),
            hotkey: self.hotkey,
            controller_hotkey: option_view(self.controller_hotkey),
        }
    }
}

fn clone_device(device: &Option<AudioDeviceConfig>) -> (r: Option<AudioDeviceConfig>)
    ensures
        option_view(r) == option_view(*device),
{
    match device {
        Some(inner) => Some(inner.clone()),
        None => None,
    }
}

/// A copy of an optional chord.
pub fn clone_binding(binding: &Option<ControllerBinding>) -> (r: Option<ControllerBinding>)
    ensures
        option_view(r) == option_view(*binding),
{
    match binding {
        Some(inner) => Some(inner.clone()),
        None => None,
    }
}

impl Clone for MonitorLayout {
    fn clone(&self) -> (r: Self)
        ensures
            r@ == self@,
    {
        let mut monitors: Vec<MonitorConfig> = Vec::new();
        let mut index: usize = 0;
        while index < self.monitors.len()
            invariant
                index <= self.monitors@.len(),
                order::views(monitors@) == order::views(self.monitors@).take(index as int),
            decreases self.monitors@.len() - index,
        {
            let ghost before = monitors@;
            let monitor = self.monitors[index].clone();
            monitors.push(monitor);
            proof {
                assert(order::views(monitors@) =~= order::views(before).push(monitor@));
                assert(order::views(self.monitors@).take(index + 1) =~= order::views(
                    self.monitors@,
                ).take(index as int).push(self.monitors@[index as int]@));
            }
            index = index + 1;
        }
        proof {
            assert(order::views(monitors@) =~= order::views(self.monitors@));
        }
        MonitorLayout {
            name: self.name.clone(),
            monitors,
            playback_device: clone_device(&self.playback_device),
            microphone_device: clone_device(&self.microphone_device),
            hotkey: self.hotkey,
            controller_hotkey: clone_binding(&self.controller_hotkey),
        }
    }
}

/// Everything that is saved.
#[derive(Debug)]
pub struct AppConfig {
    pub layouts: Vec<MonitorLayout>,
    /// Last healthy topology, kept separately from user layouts.
    pub last_known_working: Option<MonitorLayout>,
}

/// The contents of an [`AppConfig`].
#[verifier::ext_equal]
pub struct ConfigView {
    pub layouts: Seq<LayoutView>,
    pub last_known_working: Option<LayoutView>,
}

impl View for AppConfig {
    type V = ConfigView;

    open spec fn view(&self) -> ConfigView {
        ConfigView {
            layouts: order::views(self.layouts@),
            last_known_working: option_view(self.last_known_working),
        }
    }
}

impl Default for AppConfig {
    fn default() -> (r: Self)
        ensures
            r@.layouts.len() == 0,
            r@.last_known_working is None,
    {
        AppConfig { layouts: Vec::new(), last_known_working: None }
    }
}

/// The monitors that are on, in their order.
pub open spec fn enabled_of(monitors: Seq<MonitorView>) -> Seq<MonitorView>
    decreases monitors.len(),
{
    if monitors.len() == 0 {
        Seq::empty()
    } else if monitors.last().enabled {
        enabled_of(monitors.drop_last()).push(monitors.last())
    } else {
        enabled_of(monitors.drop_last())
    }
}

/// The monitors that are on keep their order.
pub proof fn lemma_enabled_order(monitors: Seq<MonitorView>, i: int, j: int)
    requires
        0 <= i < j < enabled_of(monitors).len(),
    ensures
        exists|a: int, b: int|
            0 <= a < b < monitors.len() && #[trigger] monitors[a] == enabled_of(monitors)[i]
                && #[trigger] monitors[b] == enabled_of(monitors)[j],
    decreases monitors.len(),
{
    let before = monitors.drop_last();
    let found = enabled_of(before);
    if j < found.len() {
        lemma_enabled_order(before, i, j);
        let (a, b) = choose|a: int, b: int|
            0 <= a < b < before.len() && #[trigger] before[a] == found[i]
                && #[trigger] before[b] == found[j];
        assert(monitors[a] == enabled_of(monitors)[i] && monitors[b] == enabled_of(monitors)[j]);
    } else {
        lemma_enabled_of(before);
        assert(before.contains(found[i]));
        let a = choose|a: int| 0 <= a < before.len() && before[a] == found[i];
        assert(monitors[a] == enabled_of(monitors)[i]);
        assert(monitors[monitors.len() - 1] == enabled_of(monitors)[j]);
    }
}

/// Every monitor that is on is among them, and no other.
pub proof fn lemma_enabled_of(monitors: Seq<MonitorView>)
    ensures
        forall|i: int|
            0 <= i < enabled_of(monitors).len() ==> (#[trigger] enabled_of(monitors)[i]).enabled
                && monitors.contains(enabled_of(monitors)[i]),
        forall|i: int|
            0 <= i < monitors.len() && (#[trigger] monitors[i]).enabled ==> enabled_of(
                monitors,
            ).contains(monitors[i]),
        enabled_of(monitors).len() <= monitors.len(),
    decreases monitors.len(),
{
    if monitors.len() > 0 {
        let before = monitors.drop_last();
        let found = enabled_of(before);
        let all = enabled_of(monitors);
        lemma_enabled_of(before);
        assert forall|i: int| 0 <= i < all.len() implies (#[trigger] all[i]).enabled
            && monitors.contains(all[i]) by {
            if i < found.len() {
                assert(all[i] == found[i]);
                assert(before.contains(found[i]));
                let k = choose|k: int| 0 <= k < before.len() && before[k] == found[i];
                assert(monitors[k] == all[i]);
            } else {
                assert(monitors[monitors.len() - 1] == all[i]);
            }
        }
        assert forall|i: int| 0 <= i < monitors.len() && (
        #[trigger] monitors[i]).enabled implies all.contains(monitors[i]) by {
            if i < before.len() {
                assert(before[i] == monitors[i]);
                assert(found.contains(before[i]));
                let k = choose|k: int| 0 <= k < found.len() && found[k] == before[i];
                assert(all[k] == monitors[i]);
            } else {
                assert(all[all.len() - 1] == monitors[i]);
            }
        }
    }
}

/// Copies of the monitors that are on, in their order.
pub fn enabled_monitors(monitors: &Vec<MonitorConfig>) -> (r: Vec<MonitorConfig>)
    ensures
        order::views(r@) == enabled_of(order::views(monitors@)),
{
    let ghost all = order::views(monitors@);
    let mut enabled: Vec<MonitorConfig> = Vec::new();
    let mut index: usize = 0;
    proof {
        assert(order::views(enabled@) =~= enabled_of(all.take(0)));
    }
    while index < monitors.len()
        invariant
            index <= monitors@.len(),
            all == order::views(monitors@),
            order::views(enabled@) == enabled_of(all.take(index as int)),
        decreases monitors@.len() - index,
    {
        let ghost before = enabled@;
        proof {
            assert(all.take(index + 1).drop_last() =~= all.take(index as int));
            assert(all.take(index + 1).last() == monitors@[index as int]@);
        }
        if monitors[index].enabled {
            let monitor = monitors[index].clone();
            enabled.push(monitor);
            proof {
                assert(order::views(enabled@) =~= order::views(before).push(monitor@));
            }
        }
        index = index + 1;
    }
    proof {
        assert(all.take(all.len() as int) =~= all);
    }
    enabled
}

/// What a monitor is placed with: its clone group, or itself.
#[derive(Debug)]
pub enum GroupKey {
    Clone(u32),
    Single(String),
}

/// The contents of a [`GroupKey`].
#[verifier::ext_equal]
pub enum GroupKeyView {
    Clone(u32),
    Single(Seq<char>),
}

impl View for GroupKey {
    type V = GroupKeyView;

    open spec fn view(&self) -> GroupKeyView {
        match self {
            GroupKey::Clone(group) => GroupKeyView::Clone(*group),
            GroupKey::Single(key) => GroupKeyView::Single(key@),
        }
    }
}

impl GroupKey {
    /// Whether two keys are the same.
    pub fn same(&self, other: &GroupKey) -> (r: bool)
        ensures
            r == (self@ == other@),
    {
        match (self, other) {
            (GroupKey::Clone(a), GroupKey::Clone(b)) => *a == *b,
            (GroupKey::Single(a), GroupKey::Single(b)) => text::same_text(a.as_str(), b.as_str()),
            _ => false,
        }
    }
}

impl MonitorView {
    /// What the monitor is placed with.
    pub open spec fn group_key(self) -> GroupKeyView {
        match self.clone_group {
            Some(group) => GroupKeyView::Clone(group),
            None => GroupKeyView::Single(self.identity.stable_key()),
        }
    }
}

impl MonitorConfig {
    /// What the monitor is placed with.
    pub fn group_key(&self) -> (r: GroupKey)
        ensures
            r@ == self@.group_key(),
    {
        match self.clone_group {
            Some(group) => GroupKey::Clone(group),
            None => GroupKey::Single(self.identity.stable_key()),
        }
    }
}

} // verus!
