//! Display paths as Windows reports them, and what is known about the monitor
//! at the end of each.

use vstd::prelude::*;
use vstd::string::*;
use crate::model::{Hertz, IdentityView, MonitorIdentity, SourceKey};
use crate::order;
use crate::text;

verus! {

/// The mode index that stands for "no mode".
pub const INVALID_MODE_INDEX: u32 = 0xFFFF_FFFF;

/// The flag of an active path, `DISPLAYCONFIG_PATH_ACTIVE`.
pub const PATH_ACTIVE: u32 = 1;

/// A refresh rate as a fraction of hertz.
#[derive(Debug, Clone, Copy, PartialEq, Eq, Structural)]
pub struct Rational {
    pub numerator: u32,
    pub denominator: u32,
}

/// A route from a display source to a target: `DISPLAYCONFIG_PATH_INFO`.
#[derive(Debug, Clone, Copy, PartialEq, Eq, Structural)]
pub struct DisplayPath {
    pub source_adapter_low: u32,
    pub source_adapter_high: i32,
    pub source_id: u32,
    pub source_mode_index: u32,
    pub source_status_flags: u32,
    pub target_adapter_low: u32,
    pub target_adapter_high: i32,
    pub target_id: u32,
    pub target_mode_index: u32,
    pub output_technology: i32,
    pub rotation: i32,
    pub scaling: i32,
    pub refresh_rate: Rational,
    pub scan_line_ordering: i32,
    pub target_available: bool,
    pub target_status_flags: u32,
    pub flags: u32,
}

impl DisplayPath {
    /// A path of which every field is zero.
    pub open spec fn zero() -> DisplayPath {
        DisplayPath {
            source_adapter_low: 0,
            source_adapter_high: 0,
            source_id: 0,
            source_mode_index: 0,
            source_status_flags: 0,
            target_adapter_low: 0,
            target_adapter_high: 0,
            target_id: 0,
            target_mode_index: 0,
            output_technology: 0,
            rotation: 0,
            scaling: 0,
            refresh_rate: Rational { numerator: 0, denominator: 0 },
            scan_line_ordering: 0,
            target_available: false,
            target_status_flags: 0,
            flags: 0,
        }
    }

    /// The source at which the path begins.
    pub open spec fn source(self) -> SourceKey {
        (self.source_adapter_high, self.source_adapter_low, self.source_id)
    }

    /// The source at which the path begins.
    pub fn source_key(&self) -> (r: SourceKey)
        ensures
            r == self.source(),
    {
        (self.source_adapter_high, self.source_adapter_low, self.source_id)
    }
}

impl Default for DisplayPath {
    fn default() -> (r: Self)
        ensures
            r == DisplayPath::zero(),
    {
        DisplayPath {
            source_adapter_low: 0,
            source_adapter_high: 0,
            source_id: 0,
            source_mode_index: 0,
            source_status_flags: 0,
            target_adapter_low: 0,
            target_adapter_high: 0,
            target_id: 0,
            target_mode_index: 0,
            output_technology: 0,
            rotation: 0,
            scaling: 0,
            refresh_rate: Rational { numerator: 0, denominator: 0 },
            scan_line_ordering: 0,
            target_available: false,
            target_status_flags: 0,
            flags: 0,
        }
    }
}

/// Where a source is on the desktop and how large it is.
#[derive(Debug, Clone, Copy, PartialEq, Eq, Structural)]
pub struct SourceMode {
    pub x: i32,
    pub y: i32,
    pub width: u32,
    pub height: u32,
}

/// An entry of the mode table.
#[derive(Debug, Clone, Copy, PartialEq, Eq, Structural)]
pub enum ModeInfo {
    /// The mode of a source.
    Source(SourceMode),
    /// A target's timing, or anything else that carries no position.
    Other,
}

/// The paths and modes of one query.
#[derive(Debug)]
pub struct Snapshot {
    pub paths: Vec<DisplayPath>,
    pub modes: Vec<ModeInfo>,
}

/// What Windows tells about a target.
#[derive(Debug)]
pub struct TargetMeta {
    pub identity: MonitorIdentity,
    pub friendly_name: String,
}

/// The contents of a [`TargetMeta`].
#[verifier::ext_equal]
pub struct MetaView {
    pub identity: IdentityView,
    pub friendly_name: Seq<char>,
}

impl View for TargetMeta {
    type V = MetaView;

    open spec fn view(&self) -> MetaView {
        MetaView { identity: self.identity@, friendly_name: self.friendly_name@ }
    }
}

/// What `DisplayConfigGetDeviceInfo` answers when asked for a target's name: a
/// status and, where that is zero, two zero-terminated names.
#[derive(Debug)]
pub struct TargetName {
    pub code: i32,
    pub friendly: Vec<u16>,
    pub device_path: Vec<u16>,
}

/// How many units come before the first zero.
pub open spec fn zero_at(units: Seq<u16>) -> int
    decreases units.len(),
{
    if units.len() == 0 || units[0] == 0 {
        0
    } else {
        1 + zero_at(units.skip(1))
    }
}

/// The text before the first zero.
pub open spec fn zero_terminated(units: Seq<u16>) -> Seq<char> {
    text::decode_utf16(units.take(zero_at(units)))
}

/// The text before the first zero.
pub fn wide_z(units: &Vec<u16>) -> (r: String)
    ensures
        r@ == zero_terminated(units@),
{
    let mut kept: Vec<u16> = Vec::new();
    let mut index: usize = 0;
    proof {
        assert(units@.skip(0) =~= units@);
    }
    while index < units.len() && units[index] != 0
        invariant
            index <= units@.len(),
            kept@ == units@.take(index as int),
            zero_at(units@) == index + zero_at(units@.skip(index as int)),
        decreases units@.len() - index,
    {
        proof {
            assert(units@.skip(index as int)[0] == units@[index as int]);
            assert(units@.skip(index as int).skip(1) =~= units@.skip(index + 1));
            assert(units@.take(index + 1) =~= units@.take(index as int).push(units@[index as int]));
        }
        kept.push(units[index]);
        index = index + 1;
    }
    proof {
        if index < units@.len() {
            assert(units@.skip(index as int)[0] == units@[index as int]);
        }
    }
    text::utf16_text(&kept)
}

/// What a target is known as: its own name, or a number where that is blank.
pub open spec fn target_label(name: Seq<char>, target_id: u32) -> Seq<char> {
    if text::is_blank(name) {
        "Monitor "@ + text::decimal(target_id as nat)
    } else {
        name
    }
}

/// What is known about the target of `path`, given the answer to the question
/// for its name.
pub open spec fn meta_of(path: DisplayPath, name: TargetName) -> MetaView {
    MetaView {
        identity: IdentityView {
            device_path: zero_terminated(name.device_path@),
            adapter_low: path.target_adapter_low,
            adapter_high: path.target_adapter_high,
            target_id: path.target_id,
        },
        friendly_name: target_label(zero_terminated(name.friendly@), path.target_id),
    }
}

/// What is known about the target of a path; the status where Windows gave
/// no answer.
pub fn target_meta(path: &DisplayPath, name: &TargetName) -> (r: Result<TargetMeta, i32>)
    ensures
        r is Ok <==> name.code == 0,
        r matches Ok(meta) ==> meta@ == meta_of(*path, *name),
        r matches Err(code) ==> code == name.code,
{
    if name.code != 0 {
        return Err(name.code);
    }
    let friendly = wide_z(&name.friendly);
    let device_path = wide_z(&name.device_path);
    let friendly_name = if text::blank(friendly.as_str()) {
        let mut label = "Monitor ".to_string();
        label.append(text::decimal_text(path.target_id as u64).as_str());
        label
    } else {
        friendly
    };
    Ok(
        TargetMeta {
            identity: MonitorIdentity {
                device_path,
                adapter_low: path.target_adapter_low,
                adapter_high: path.target_adapter_high,
                target_id: path.target_id,
            },
            friendly_name,
        },
    )
}

/// What the user reads where a target gave no answer.
pub fn target_meta_failure(code: i32) -> (r: String)
    ensures
        r@ == "DisplayConfigGetDeviceInfo(GET_TARGET_NAME) failed: "@ + text::signed_decimal(
            code as int,
        ),
{
    let mut out = "DisplayConfigGetDeviceInfo(GET_TARGET_NAME) failed: ".to_string();
    out.append(text::signed_decimal_text(code as i64).as_str());
    out
}

/// The resolution that a target prefers, where Windows knows one.
pub fn preferred_size(code: i32, width: u32, height: u32) -> (r: Option<(u32, u32)>)
    ensures
        r == (if code == 0 && width > 0 && height > 0 {
            Some((width, height))
        } else {
            None
        }),
{
    if code == 0 && width > 0 && height > 0 {
        Some((width, height))
    } else {
        None
    }
}

/// A path with what was found out about its target.
#[derive(Debug)]
pub struct QueriedPath {
    pub path: DisplayPath,
    pub meta: Result<TargetMeta, i32>,
    /// The resolution that the target prefers.
    pub preferred: Option<(u32, u32)>,
    /// The refresh rate of the path, divided out.
    pub measured_hz: Hertz,
}

/// The contents of a [`QueriedPath`].
#[verifier::ext_equal]
pub struct QueriedView {
    pub path: DisplayPath,
    pub meta: Option<MetaView>,
    pub preferred: Option<(u32, u32)>,
    pub measured_hz: Hertz,
}

impl View for QueriedPath {
    type V = QueriedView;

    open spec fn view(&self) -> QueriedView {
        QueriedView {
            path: self.path,
            meta: match self.meta {
                Ok(meta) => Some(meta@),
                Err(_) => None,
            },
            preferred: self.preferred,
            measured_hz: self.measured_hz,
        }
    }
}

impl QueriedView {
    /// Whether a monitor is connected there and known by name.
    pub open spec fn is_usable(self) -> bool {
        self.path.target_available && self.meta is Some
    }
}

/// Sources are ordered by adapter, then by their number on it.
pub open spec fn source_before(a: SourceKey, b: SourceKey) -> bool {
    if a.0 != b.0 {
        a.0 < b.0
    } else if a.1 != b.1 {
        a.1 < b.1
    } else {
        a.2 < b.2
    }
}

impl order::Ranked for (i32, u32, u32) {
    open spec fn ranks_before(a: (i32, u32, u32), b: (i32, u32, u32)) -> bool {
        source_before(a, b)
    }

    fn is_before(&self, other: &Self) -> (r: bool) {
        if self.0 != other.0 {
            self.0 < other.0
        } else if self.1 != other.1 {
            self.1 < other.1
        } else {
            self.2 < other.2
        }
    }

    proof fn lemma_strict_weak_order(
        a: (i32, u32, u32),
        b: (i32, u32, u32),
        c: (i32, u32, u32),
    ) {
    }
}

/// The mode of the source at which a path begins, where the table has one.
pub open spec fn source_mode(path: DisplayPath, modes: Seq<ModeInfo>) -> Option<SourceMode> {
    if path.source_mode_index < modes.len() {
        match modes[path.source_mode_index as int] {
            ModeInfo::Source(mode) => Some(mode),
            ModeInfo::Other => None,
        }
    } else {
        None
    }
}

/// The mode of the source at which a path begins, where the table has one.
pub fn source_mode_for_path(path: &DisplayPath, modes: &Vec<ModeInfo>) -> (r: Option<SourceMode>)
    ensures
        r == source_mode(*path, modes@),
{
    let index: usize = path.source_mode_index as usize;
    if index >= modes.len() {
        return None;
    }
    match modes[index] {
        ModeInfo::Source(mode) => Some(mode),
        ModeInfo::Other => None,
    }
}

/// Nothing is known of an empty path: it leads to no connected monitor.
pub proof fn lemma_zero_path()
    ensures
        ({
            let path = DisplayPath::zero();
            &&& path.source() == (0i32, 0u32, 0u32)
            &&& path.target_adapter_low == 0 && path.target_adapter_high == 0 && path.target_id == 0
            &&& path.source_mode_index == 0 && path.target_mode_index == 0
            &&& path.source_status_flags == 0 && path.target_status_flags == 0 && path.flags == 0
            &&& path.rotation == 0 && path.scaling == 0 && path.scan_line_ordering == 0
            &&& path.output_technology == 0 && !path.target_available
            &&& path.refresh_rate.numerator == 0 && path.refresh_rate.denominator == 0
        }),
{
}

/// Two paths begin at the same source where adapter and number agree, and a
/// path's source mode is the entry of the table that its index names, where
/// that belongs to a source.
pub proof fn lemma_sources(a: DisplayPath, b: DisplayPath, modes: Seq<ModeInfo>)
    ensures
        a.source() == b.source() <==> a.source_adapter_low == b.source_adapter_low
            && a.source_adapter_high == b.source_adapter_high && a.source_id == b.source_id,
        a.source() == (a.source_adapter_high, a.source_adapter_low, a.source_id),
        a.source_mode_index >= modes.len() ==> source_mode(a, modes) is None,
        a.source_mode_index < modes.len() ==> (modes[a.source_mode_index as int]
            == match source_mode(a, modes) {
            Some(mode) => ModeInfo::Source(mode),
            None => ModeInfo::Other,
        }),
        INVALID_MODE_INDEX == 0xFFFF_FFFF && PATH_ACTIVE == 1,
{
}

/// Only paths to connected monitors that are known by name are of use.
pub proof fn lemma_usable(queried: QueriedView)
    ensures
        queried.is_usable() ==> queried.path.target_available && queried.meta is Some,
        !queried.is_usable() ==> !queried.path.target_available || queried.meta is None,
{
}

/// Text ends before the first zero unit, and at the end where there is none.
pub proof fn lemma_zero_at(units: Seq<u16>)
    ensures
        0 <= zero_at(units) <= units.len(),
        forall|i: int| 0 <= i < zero_at(units) ==> #[trigger] units[i] != 0,
        zero_at(units) < units.len() ==> units[zero_at(units)] == 0,
    decreases units.len(),
{
    if units.len() > 0 && units[0] != 0 {
        let rest = units.skip(1);
        lemma_zero_at(rest);
        assert forall|i: int| 0 <= i < zero_at(units) implies #[trigger] units[i] != 0 by {
            if i > 0 {
                assert(rest[i - 1] == units[i]);
            }
        }
        if zero_at(units) < units.len() {
            assert(rest[zero_at(rest)] == units[zero_at(units)]);
        }
    }
}

/// A target is known by the adapter and target of its path and the device path
/// that Windows gives, and called by its own name, or by its number where that
/// is blank.
pub proof fn lemma_meta_of(path: DisplayPath, name: TargetName)
    ensures
        ({
            let meta = meta_of(path, name);
            &&& meta.identity.adapter_low == path.target_adapter_low
            &&& meta.identity.adapter_high == path.target_adapter_high
            &&& meta.identity.target_id == path.target_id
            &&& meta.identity.device_path == text::decode_utf16(
                name.device_path@.take(zero_at(name.device_path@)),
            )
            &&& !text::is_blank(text::decode_utf16(name.friendly@.take(zero_at(name.friendly@))))
                ==> meta.friendly_name == text::decode_utf16(
                name.friendly@.take(zero_at(name.friendly@)),
            )
            &&& text::is_blank(text::decode_utf16(name.friendly@.take(zero_at(name.friendly@))))
                ==> meta.friendly_name == "Monitor "@ + text::decimal(path.target_id as nat)
        }),
{
}

/// An orientation that Windows defines, or nothing.
pub fn valid_rotation(rotation: i32) -> (r: Option<i32>)
    ensures
        r == (if 1 <= rotation <= 4 { Some(rotation) } else { None }),
{
    if 1 <= rotation && rotation <= 4 {
        Some(rotation)
    } else {
        None
    }
}

} // verus!
