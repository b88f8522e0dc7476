//! DualSense input reports and the buttons in them.

use vstd::prelude::*;
use vstd::string::*;
use std::collections::BTreeSet;
use crate::order;
use crate::text;

verus! {

// Persisted button IDs; these values and names stay as they are.

pub const CROSS: u32 = 0;

pub const CIRCLE: u32 = 1;

pub const SQUARE: u32 = 2;

pub const TRIANGLE: u32 = 3;

pub const DPAD_UP: u32 = 4;

pub const DPAD_DOWN: u32 = 5;

pub const DPAD_LEFT: u32 = 6;

pub const DPAD_RIGHT: u32 = 7;

pub const L1: u32 = 8;

pub const R1: u32 = 9;

pub const L2: u32 = 10;

pub const R2: u32 = 11;

pub const CREATE: u32 = 12;

pub const OPTIONS: u32 = 13;

pub const L3: u32 = 14;

pub const R3: u32 = 15;

pub const PS: u32 = 16;

pub const TOUCHPAD: u32 = 17;

pub const MUTE: u32 = 18;

/// What a button is called.
pub open spec fn name_of(button: u32) -> Seq<char> {
    if button == CROSS {
        "Cross"@
    } else if button == CIRCLE {
        "Circle"@
    } else if button == SQUARE {
        "Square"@
    } else if button == TRIANGLE {
        "Triangle"@
    } else if button == DPAD_UP {
        "D-pad Up"@
    } else if button == DPAD_DOWN {
        "D-pad Down"@
    } else if button == DPAD_LEFT {
        "D-pad Left"@
    } else if button == DPAD_RIGHT {
        "D-pad Right"@
    } else if button == L1 {
        "L1"@
    } else if button == R1 {
        "R1"@
    } else if button == L2 {
        "L2"@
    } else if button == R2 {
        "R2"@
    } else if button == CREATE {
        "Create"@
    } else if button == OPTIONS {
        "Options"@
    } else if button == L3 {
        "L3"@
    } else if button == R3 {
        "R3"@
    } else if button == PS {
        "PS"@
    } else if button == TOUCHPAD {
        "Touchpad"@
    } else if button == MUTE {
        "Mute"@
    } else {
        "Unknown button"@
    }
}

/// What a button is called.
pub fn button_name(button: u32) -> (r: &'static str)
    ensures
        r@ == name_of(button),
{
    match button {
        0 => "Cross",
        1 => "Circle",
        2 => "Square",
        3 => "Triangle",
        4 => "D-pad Up",
        5 => "D-pad Down",
        6 => "D-pad Left",
        7 => "D-pad Right",
        8 => "L1",
        9 => "R1",
        10 => "L2",
        11 => "R2",
        12 => "Create",
        13 => "Options",
        14 => "L3",
        15 => "R3",
        16 => "PS",
        17 => "Touchpad",
        18 => "Mute",
        _ => "Unknown button",
    }
}

// ---------------------------------------------------------------------------
// Reports
// ---------------------------------------------------------------------------

/// The button payload of a report. USB and Bluetooth reports differ in what
/// comes before it; a report of any other length has none.
pub open spec fn payload(report: Seq<u8>) -> Option<Seq<u8>> {
    if report.len() == 63 {
        Some(report)
    } else if report.len() == 64 {
        if report[0] == 1 {
            Some(report.skip(1))
        } else {
            Some(report)
        }
    } else if report.len() == 77 {
        Some(report.skip(2))
    } else if report.len() == 78 {
        if report[0] == 1 {
            Some(report.skip(3))
        } else {
            Some(report.skip(2))
        }
    } else {
        None
    }
}

fn behind(report: &[u8], count: usize) -> (r: &[u8])
    requires
        count <= report@.len(),
    ensures
        r@ == report@.skip(count as int),
{
    let rest = vstd::slice::slice_subrange(report, count, report.len());
    proof {
        assert(rest@ =~= report@.skip(count as int));
    }
    rest
}

/// Strips the USB or Bluetooth header off a report.
pub fn extract_report(report: &[u8]) -> (r: Option<&[u8]>)
    ensures
        r is Some <==> payload(report@) is Some,
        r matches Some(data) ==> payload(report@) == Some(data@),
{
    let length = report.len();
    if length == 63 {
        Some(report)
    } else if length == 64 {
        if report[0] == 1 {
            Some(behind(report, 1))
        } else {
            Some(report)
        }
    } else if length == 77 {
        Some(behind(report, 2))
    } else if length == 78 {
        if report[0] == 1 {
            Some(behind(report, 3))
        } else {
            Some(behind(report, 2))
        }
    } else {
        None
    }
}

/// Whether the D-pad, which reports one of eight directions, is pushed towards
/// `button`; a diagonal pushes two.
pub open spec fn hat_presses(hat: u8, button: u32) -> bool {
    if button == DPAD_UP {
        hat == 7 || hat == 0 || hat == 1
    } else if button == DPAD_RIGHT {
        hat == 1 || hat == 2 || hat == 3
    } else if button == DPAD_DOWN {
        hat == 3 || hat == 4 || hat == 5
    } else if button == DPAD_LEFT {
        hat == 5 || hat == 6 || hat == 7
    } else {
        false
    }
}

/// Whether the byte with the face buttons reports a button.
pub open spec fn face_presses(byte: u8, button: u32) -> bool {
    ||| button == SQUARE && byte & 0x10 != 0
    ||| button == CROSS && byte & 0x20 != 0
    ||| button == CIRCLE && byte & 0x40 != 0
    ||| button == TRIANGLE && byte & 0x80 != 0
}

/// Whether the byte with the shoulder buttons and triggers reports a button.
pub open spec fn shoulder_presses(byte: u8, button: u32) -> bool {
    ||| button == L1 && byte & 0x01 != 0
    ||| button == R1 && byte & 0x02 != 0
    ||| button == L2 && byte & 0x04 != 0
    ||| button == R2 && byte & 0x08 != 0
}

/// Whether that byte reports one of the other buttons that it holds.
pub open spec fn stick_presses(byte: u8, button: u32) -> bool {
    ||| button == CREATE && byte & 0x10 != 0
    ||| button == OPTIONS && byte & 0x20 != 0
    ||| button == L3 && byte & 0x40 != 0
    ||| button == R3 && byte & 0x80 != 0
}

/// Whether the byte with the system buttons reports a button.
pub open spec fn system_presses(byte: u8, button: u32) -> bool {
    ||| button == PS && byte & 0x01 != 0
    ||| button == TOUCHPAD && byte & 0x02 != 0
    ||| button == MUTE && byte & 0x04 != 0
}

/// Whether a payload says that a button is pressed.
pub open spec fn is_pressed(report: Seq<u8>, button: u32) -> bool {
    ||| face_presses(report[7], button)
    ||| hat_presses(report[7] & 0x0F, button)
    ||| shoulder_presses(report[8], button)
    ||| stick_presses(report[8], button)
    ||| system_presses(report[9], button)
}

/// The buttons that a payload reports; a short one reports none.
pub open spec fn pressed_buttons(report: Seq<u8>) -> Set<u32> {
    if report.len() < 10 {
        Set::empty()
    } else {
        Set::new(|button: u32| is_pressed(report, button))
    }
}

/// Only buttons with a name are ever reported, and opposite directions of the
/// D-pad never together.
pub proof fn lemma_pressed_buttons(report: Seq<u8>)
    ensures
        forall|button: u32| #[trigger]
            pressed_buttons(report).contains(button) ==> button <= MUTE,
        !(pressed_buttons(report).contains(DPAD_UP) && pressed_buttons(report).contains(
            DPAD_DOWN,
        )),
        !(pressed_buttons(report).contains(DPAD_LEFT) && pressed_buttons(report).contains(
            DPAD_RIGHT,
        )),
{
}

proof fn lemma_bits_of(byte: u8)
    by (bit_vector)
    ensures
        byte & 0x01 != 0 <==> byte / 1 % 2 == 1,
        byte & 0x02 != 0 <==> byte / 2 % 2 == 1,
        byte & 0x04 != 0 <==> byte / 4 % 2 == 1,
        byte & 0x08 != 0 <==> byte / 8 % 2 == 1,
        byte & 0x10 != 0 <==> byte / 16 % 2 == 1,
        byte & 0x20 != 0 <==> byte / 32 % 2 == 1,
        byte & 0x40 != 0 <==> byte / 64 % 2 == 1,
        byte & 0x80 != 0 <==> byte / 128 % 2 == 1,
        byte & 0x0F == byte % 16,
{
}

/// Each button of a controller has one bit in the payload, wherever else bits
/// are set: Cross, Circle, Square and Triangle in the upper half of byte 7, the
/// shoulder buttons and triggers in the lower half of byte 8, Create, Options
/// and the sticks in its upper half, and PS, touchpad and mute in byte 9. The
/// D-pad is a direction in the lower half of byte 7, counted clockwise from up,
/// and 8 or more where it is released.
pub proof fn lemma_button_bits(report: Seq<u8>)
    requires
        report.len() >= 10,
    ensures
        pressed_buttons(report).contains(0) <==> report[7] / 32 % 2 == 1,
        pressed_buttons(report).contains(1) <==> report[7] / 64 % 2 == 1,
        pressed_buttons(report).contains(2) <==> report[7] / 16 % 2 == 1,
        pressed_buttons(report).contains(3) <==> report[7] / 128 % 2 == 1,
        pressed_buttons(report).contains(8) <==> report[8] / 1 % 2 == 1,
        pressed_buttons(report).contains(9) <==> report[8] / 2 % 2 == 1,
        pressed_buttons(report).contains(10) <==> report[8] / 4 % 2 == 1,
        pressed_buttons(report).contains(11) <==> report[8] / 8 % 2 == 1,
        pressed_buttons(report).contains(12) <==> report[8] / 16 % 2 == 1,
        pressed_buttons(report).contains(13) <==> report[8] / 32 % 2 == 1,
        pressed_buttons(report).contains(14) <==> report[8] / 64 % 2 == 1,
        pressed_buttons(report).contains(15) <==> report[8] / 128 % 2 == 1,
        pressed_buttons(report).contains(16) <==> report[9] / 1 % 2 == 1,
        pressed_buttons(report).contains(17) <==> report[9] / 2 % 2 == 1,
        pressed_buttons(report).contains(18) <==> report[9] / 4 % 2 == 1,
        pressed_buttons(report).contains(4) <==> (report[7] % 16 == 7 || report[7] % 16 == 0
            || report[7] % 16 == 1),
        pressed_buttons(report).contains(7) <==> 1 <= report[7] % 16 <= 3,
        pressed_buttons(report).contains(5) <==> 3 <= report[7] % 16 <= 5,
        pressed_buttons(report).contains(6) <==> 5 <= report[7] % 16 <= 7,
        forall|button: u32| button > 18 ==> !#[trigger] pressed_buttons(report).contains(button),
{
    lemma_bits_of(report[7]);
    lemma_bits_of(report[8]);
    lemma_bits_of(report[9]);
}

/// A payload with one bit set and the D-pad released reports one button.
pub proof fn lemma_single_buttons(report: Seq<u8>)
    requires
        report.len() >= 10,
    ensures
        report[7] == 0x18 && report[8] == 0 && report[9] == 0 ==> pressed_buttons(report) == set![
            2u32,
        ],
        report[7] == 0x28 && report[8] == 0 && report[9] == 0 ==> pressed_buttons(report) == set![
            0u32,
        ],
        report[7] == 0x48 && report[8] == 0 && report[9] == 0 ==> pressed_buttons(report) == set![
            1u32,
        ],
        report[7] == 0x88 && report[8] == 0 && report[9] == 0 ==> pressed_buttons(report) == set![
            3u32,
        ],
        report[7] == 0x08 && report[8] == 0x01 && report[9] == 0 ==> pressed_buttons(report)
            == set![8u32],
        report[7] == 0x08 && report[8] == 0x02 && report[9] == 0 ==> pressed_buttons(report)
            == set![9u32],
        report[7] == 0x08 && report[8] == 0x04 && report[9] == 0 ==> pressed_buttons(report)
            == set![10u32],
        report[7] == 0x08 && report[8] == 0x08 && report[9] == 0 ==> pressed_buttons(report)
            == set![11u32],
        report[7] == 0x08 && report[8] == 0x10 && report[9] == 0 ==> pressed_buttons(report)
            == set![12u32],
        report[7] == 0x08 && report[8] == 0x20 && report[9] == 0 ==> pressed_buttons(report)
            == set![13u32],
        report[7] == 0x08 && report[8] == 0x40 && report[9] == 0 ==> pressed_buttons(report)
            == set![14u32],
        report[7] == 0x08 && report[8] == 0x80 && report[9] == 0 ==> pressed_buttons(report)
            == set![15u32],
        report[7] == 0x08 && report[8] == 0 && report[9] == 0x01 ==> pressed_buttons(report)
            == set![16u32],
        report[7] == 0x08 && report[8] == 0 && report[9] == 0x02 ==> pressed_buttons(report)
            == set![17u32],
        report[7] == 0x08 && report[8] == 0 && report[9] == 0x04 ==> pressed_buttons(report)
            == set![18u32],
        report[7] == 0x08 && report[8] == 0 && report[9] == 0 ==> pressed_buttons(report)
            == Set::<u32>::empty(),
{
    lemma_bits_of(report[7]);
    lemma_bits_of(report[8]);
    lemma_bits_of(report[9]);
}

/// A payload of fewer than ten bytes reports no button.
pub proof fn lemma_short_payload(report: Seq<u8>)
    requires
        report.len() < 10,
    ensures
        forall|button: u32| !#[trigger] pressed_buttons(report).contains(button),
{
}

/// A USB report carries its payload behind its report id, a Bluetooth report
/// behind two or three bytes of header; without a header the report is the
/// payload. Reports of another length carry none.
pub proof fn lemma_payload(report: Seq<u8>)
    ensures
        payload(report) is Some <==> (report.len() == 63 || report.len() == 64 || report.len() == 77
            || report.len() == 78),
        report.len() == 63 || (report.len() == 64 && report[0] != 1) ==> payload(report) == Some(
            report,
        ),
        report.len() == 64 && report[0] == 1 ==> payload(report)->0.len() == 63 && forall|i: int|
            0 <= i < 63 ==> #[trigger] payload(report)->0[i] == report[i + 1],
        report.len() == 77 ==> payload(report)->0.len() == 75 && forall|i: int|
            0 <= i < 75 ==> #[trigger] payload(report)->0[i] == report[i + 2],
        report.len() == 78 && report[0] != 1 ==> payload(report)->0.len() == 76 && forall|i: int|
            0 <= i < 76 ==> #[trigger] payload(report)->0[i] == report[i + 2],
        report.len() == 78 && report[0] == 1 ==> payload(report)->0.len() == 75 && forall|i: int|
            0 <= i < 75 ==> #[trigger] payload(report)->0[i] == report[i + 3],
{
}

/// Every button is called what is printed on it, and no other number has a
/// name.
pub proof fn lemma_names(button: u32)
    ensures
        name_of(0) == "Cross"@,
        name_of(1) == "Circle"@,
        name_of(2) == "Square"@,
        name_of(3) == "Triangle"@,
        name_of(4) == "D-pad Up"@,
        name_of(5) == "D-pad Down"@,
        name_of(6) == "D-pad Left"@,
        name_of(7) == "D-pad Right"@,
        name_of(8) == "L1"@,
        name_of(9) == "R1"@,
        name_of(10) == "L2"@,
        name_of(11) == "R2"@,
        name_of(12) == "Create"@,
        name_of(13) == "Options"@,
        name_of(14) == "L3"@,
        name_of(15) == "R3"@,
        name_of(16) == "PS"@,
        name_of(17) == "Touchpad"@,
        name_of(18) == "Mute"@,
        button > 18 ==> name_of(button) == "Unknown button"@,
{
}

/// Adds a button to a set where a condition holds.
pub fn add_if(buttons: &mut BTreeSet<u32>, condition: bool, button: u32)
    ensures
        final(buttons)@ == (if condition {
            old(buttons)@.insert(button)
        } else {
            old(buttons)@
        }),
{
    broadcast use vstd::std_specs::btree::group_btree_axioms;

    if condition {
        buttons.insert(button);
    }
}

fn add_face_buttons(buttons: &mut BTreeSet<u32>, byte: u8)
    ensures
        forall|button: u32| #[trigger]
            final(buttons)@.contains(button) <==> old(buttons)@.contains(button) || face_presses(
                byte,
                button,
            ),
{
    add_if(buttons, byte & 0x10 != 0, SQUARE);
    add_if(buttons, byte & 0x20 != 0, CROSS);
    add_if(buttons, byte & 0x40 != 0, CIRCLE);
    add_if(buttons, byte & 0x80 != 0, TRIANGLE);
}

fn add_hat_buttons(buttons: &mut BTreeSet<u32>, hat: u8)
    ensures
        forall|button: u32| #[trigger]
            final(buttons)@.contains(button) <==> old(buttons)@.contains(button) || hat_presses(
                hat,
                button,
            ),
{
    add_if(buttons, hat == 7 || hat == 0 || hat == 1, DPAD_UP);
    add_if(buttons, hat == 1 || hat == 2 || hat == 3, DPAD_RIGHT);
    add_if(buttons, hat == 3 || hat == 4 || hat == 5, DPAD_DOWN);
    add_if(buttons, hat == 5 || hat == 6 || hat == 7, DPAD_LEFT);
}

fn add_shoulder_buttons(buttons: &mut BTreeSet<u32>, byte: u8)
    ensures
        forall|button: u32| #[trigger]
            final(buttons)@.contains(button) <==> old(buttons)@.contains(button)
                || shoulder_presses(byte, button),
{
    add_if(buttons, byte & 0x01 != 0, L1);
    add_if(buttons, byte & 0x02 != 0, R1);
    add_if(buttons, byte & 0x04 != 0, L2);
    add_if(buttons, byte & 0x08 != 0, R2);
}

fn add_stick_buttons(buttons: &mut BTreeSet<u32>, byte: u8)
    ensures
        forall|button: u32| #[trigger]
            final(buttons)@.contains(button) <==> old(buttons)@.contains(button) || stick_presses(
                byte,
                button,
            ),
{
    add_if(buttons, byte & 0x10 != 0, CREATE);
    add_if(buttons, byte & 0x20 != 0, OPTIONS);
    add_if(buttons, byte & 0x40 != 0, L3);
    add_if(buttons, byte & 0x80 != 0, R3);
}

fn add_system_buttons(buttons: &mut BTreeSet<u32>, byte: u8)
    ensures
        forall|button: u32| #[trigger]
            final(buttons)@.contains(button) <==> old(buttons)@.contains(button) || system_presses(
                byte,
                button,
            ),
{
    add_if(buttons, byte & 0x01 != 0, PS);
    add_if(buttons, byte & 0x02 != 0, TOUCHPAD);
    add_if(buttons, byte & 0x04 != 0, MUTE);
}

/// The buttons that a payload reports.
pub fn parse_buttons(report: &[u8]) -> (r: BTreeSet<u32>)
    ensures
        r@ == pressed_buttons(report@),
{
    let mut pressed: BTreeSet<u32> = BTreeSet::new();
    if report.len() < 10 {
        return pressed;
    }
    add_face_buttons(&mut pressed, report[7]);
    add_hat_buttons(&mut pressed, report[7] & 0x0F);
    add_shoulder_buttons(&mut pressed, report[8]);
    add_stick_buttons(&mut pressed, report[8]);
    add_system_buttons(&mut pressed, report[9]);
    proof {
        assert(pressed@ =~= pressed_buttons(report@));
    }
    pressed
}

// ---------------------------------------------------------------------------
// Sets of buttons in order
// ---------------------------------------------------------------------------

impl order::Ranked for u32 {
    open spec fn ranks_before(a: u32, b: u32) -> bool {
        a < b
    }

    fn is_before(&self, other: &Self) -> (r: bool) {
        *self < *other
    }

    proof fn lemma_strict_weak_order(a: u32, b: u32, c: u32) {
    }
}

/// Whether numbers come in strictly ascending order.
pub open spec fn is_ascending(numbers: Seq<u32>) -> bool {
    forall|i: int, j: int|
        0 <= i < j < numbers.len() ==> #[trigger] numbers[i] < #[trigger] numbers[j]
}

/// The numbers of a set in ascending order.
pub open spec fn ascending(numbers: Set<u32>) -> Seq<u32> {
    choose|sorted: Seq<u32>| is_ascending(sorted) && sorted.to_set() == numbers
}

/// There is only one way to list a set in ascending order.
pub proof fn lemma_ascending_is_unique(a: Seq<u32>, b: Seq<u32>)
    requires
        is_ascending(a),
        is_ascending(b),
        a.to_set() == b.to_set(),
    ensures
        a == b,
    decreases a.len(),
{
    if a.len() == 0 {
        if b.len() > 0 {
            assert(b.to_set().contains(b[0]));
            assert(a.contains(b[0]));
        }
        assert(a =~= b);
    } else if b.len() == 0 {
        assert(a.to_set().contains(a[0]));
        assert(b.contains(a[0]));
    } else {
        let x = a.last();
        let y = b.last();
        assert(a.to_set().contains(x));
        assert(b.contains(x));
        assert(b.to_set().contains(y));
        assert(a.contains(y));
        let i = choose|i: int| 0 <= i < b.len() && b[i] == x;
        let j = choose|j: int| 0 <= j < a.len() && a[j] == y;
        assert(x == y) by {
            if i < b.len() - 1 {
                assert(b[i] < b[b.len() - 1]);
            }
            if j < a.len() - 1 {
                assert(a[j] < a[a.len() - 1]);
            }
        }
        let c = a.drop_last();
        let d = b.drop_last();
        assert(c.to_set() =~= d.to_set()) by {
            assert forall|n: u32| c.to_set().contains(n) <==> d.to_set().contains(n) by {
                if c.contains(n) {
                    let k = choose|k: int| 0 <= k < c.len() && c[k] == n;
                    assert(a[k] == n && a[k] < a[a.len() - 1]);
                    assert(a.to_set().contains(n));
                    assert(b.contains(n));
                    let m = choose|m: int| 0 <= m < b.len() && b[m] == n;
                    assert(d[m] == n);
                }
                if d.contains(n) {
                    let k = choose|k: int| 0 <= k < d.len() && d[k] == n;
                    assert(b[k] == n && b[k] < b[b.len() - 1]);
                    assert(b.to_set().contains(n));
                    assert(a.contains(n));
                    let m = choose|m: int| 0 <= m < a.len() && a[m] == n;
                    assert(c[m] == n);
                }
            }
        }
        lemma_ascending_is_unique(c, d);
        assert(a =~= c.push(x));
        assert(b =~= d.push(y));
    }
}

proof fn lemma_sorted_is_ascending(listed: Seq<u32>)
    requires
        listed.no_duplicates(),
    ensures
        is_ascending(order::stable_sorted::<u32>(listed)),
        order::stable_sorted::<u32>(listed).to_set() == listed.to_set(),
{
    let result = order::stable_sorted::<u32>(listed);
    order::lemma_stable_sorted::<u32>(listed);
    order::lemma_sorted_members::<u32>(listed);
    assert forall|i: int, j: int| 0 <= i < j < result.len() implies #[trigger] result[i]
        < #[trigger] result[j] by {
        assert(!(result[j] < result[i]));
        assert(result[i] != result[j]);
    }
    assert(result.to_set() =~= listed.to_set()) by {
        assert forall|n: u32| result.to_set().contains(n) <==> listed.to_set().contains(n) by {
            assert(result.contains(n) <==> listed.contains(n));
        }
    }
}

/// Every finite set can be listed in ascending order.
pub proof fn lemma_ascending(numbers: Set<u32>)
    requires
        numbers.finite(),
    ensures
        is_ascending(ascending(numbers)),
        ascending(numbers).to_set() == numbers,
    decreases numbers.len(),
{
    if numbers.len() == 0 {
        let none = Seq::<u32>::empty();
        assert(none.to_set() =~= numbers) by {
            assert(numbers =~= Set::empty());
        }
        assert(is_ascending(none) && none.to_set() == numbers);
    } else {
        let n = numbers.choose();
        let rest = numbers.remove(n);
        lemma_ascending(rest);
        let before = ascending(rest);
        let listed = before.push(n);
        assert(listed.no_duplicates()) by {
            assert forall|i: int, j: int|
                0 <= i < listed.len() && 0 <= j < listed.len() && i != j implies listed[i]
                != listed[j] by {
                let (low, high) = if i < j { (i, j) } else { (j, i) };
                assert(before.to_set().contains(before[low]));
                if high < before.len() {
                    assert(before[low] < before[high]);
                }
            }
        }
        assert(listed.to_set() =~= numbers) by {
            assert forall|m: u32| listed.to_set().contains(m) <==> numbers.contains(m) by {
                if before.to_set().contains(m) {
                    let k = choose|k: int| 0 <= k < before.len() && before[k] == m;
                    assert(listed[k] == m);
                }
                assert(listed[before.len() as int] == n);
                if listed.contains(m) && m != n {
                    let k = choose|k: int| 0 <= k < listed.len() && listed[k] == m;
                    assert(before[k] == m);
                    assert(before.to_set().contains(m));
                }
            }
        }
        lemma_sorted_is_ascending(listed);
        let result = order::stable_sorted::<u32>(listed);
        assert(is_ascending(result) && result.to_set() == numbers);
    }
}

/// The buttons of a set in ascending order.
pub fn sorted_buttons(buttons: &BTreeSet<u32>) -> (r: Vec<u32>)
    ensures
        r@ == ascending(buttons@),
        is_ascending(r@),
        r@.to_set() == buttons@,
{
    broadcast use vstd::std_specs::btree::group_btree_axioms;

    let mut listed: Vec<u32> = Vec::new();
    for button in it: buttons.iter()
        invariant
            listed@ == it.seq().unref().take(it.index()),
            it.seq().unref().to_set() == buttons@,
            it.seq().no_duplicates(),
            listed@.no_duplicates(),
            it.index() == it.seq().len() ==> listed@.to_set() == buttons@,
    {
        let ghost all = it.seq().unref();
        let ghost done = it.index();
        listed.push(*button);
        proof {
            assert(all.take(done + 1) =~= all.take(done).push(all[done]));
            assert(all.take(all.len() as int) =~= all);
            assert forall|i: int, j: int|
                0 <= i < listed@.len() && 0 <= j < listed@.len() && i != j implies listed@[i]
                != listed@[j] by {
                assert(it.seq()[i] != it.seq()[j]);
            }
        }
    }
    let ghost found = listed@;
    proof {
        assert(found.to_set() == buttons@);
        assert(found.no_duplicates());
        assert(order::views(found) =~= found);
        lemma_sorted_is_ascending(found);
    }
    let sorted = order::stable_sort(listed);
    proof {
        assert(order::views(sorted@) =~= sorted@);
        lemma_ascending_is_unique(sorted@, ascending(buttons@));
    }
    sorted
}

/// The names of buttons.
pub open spec fn names_of(buttons: Seq<u32>) -> Seq<Seq<char>> {
    buttons.map_values(|button: u32| name_of(button))
}

/// The names of buttons.
pub fn button_names(buttons: &Vec<u32>) -> (r: Vec<String>)
    ensures
        text::texts(r@) == names_of(buttons@),
{
    let mut names: Vec<String> = Vec::new();
    let mut index: usize = 0;
    while index < buttons.len()
        invariant
            index <= buttons@.len(),
            text::texts(names@) == names_of(buttons@).take(index as int),
        decreases buttons@.len() - index,
    {
        let ghost before = names@;
        let name = button_name(buttons[index]).to_string();
        names.push(name);
        proof {
            assert(text::texts(names@) =~= text::texts(before).push(name@));
            assert(names_of(buttons@).take(index + 1) =~= names_of(buttons@).take(
                index as int,
            ).push(name_of(buttons@[index as int])));
        }
        index = index + 1;
    }
    proof {
        assert(names_of(buttons@).take(buttons@.len() as int) =~= names_of(buttons@));
    }
    names
}

/// The names of a set of buttons, with ` + ` between.
pub open spec fn chord_text(buttons: Set<u32>) -> Seq<char> {
    text::join(names_of(ascending(buttons)), " + "@)
}

/// The names of a set of buttons, with ` + ` between.
pub fn buttons_label(buttons: &BTreeSet<u32>) -> (r: String)
    ensures
        r@ == chord_text(buttons@),
{
    let names = button_names(&sorted_buttons(buttons));
    text::join_texts(&names, " + ")
}

/// Buttons are read out by name in ascending order with ` + ` between: one
/// alone by its name, and one more that is higher than all behind the others.
pub proof fn lemma_chord_text(chord: Set<u32>, button: u32)
    requires
        chord.finite(),
        forall|other: u32| chord.contains(other) ==> other < button,
    ensures
        chord_text(set![button]) == name_of(button),
        !chord.is_empty() ==> chord_text(chord.insert(button)) == chord_text(chord) + " + "@
            + name_of(button),
{
    let one = seq![button];
    assert(one.to_set() =~= set![button]) by {
        assert forall|n: u32| one.to_set().contains(n) <==> set![button].contains(n) by {
            assert(one[0] == button);
        }
    }
    lemma_ascending(set![button]);
    lemma_ascending_is_unique(ascending(set![button]), one);
    assert(names_of(one) =~= seq![name_of(button)]);
    let before = ascending(chord);
    lemma_ascending(chord);
    let more = before.push(button);
    assert(is_ascending(more)) by {
        assert forall|i: int, j: int| 0 <= i < j < more.len() implies #[trigger] more[i]
            < #[trigger] more[j] by {
            assert(before.to_set().contains(before[i]));
            if j < before.len() {
                assert(before[i] < before[j]);
            }
        }
    }
    assert(more.to_set() =~= chord.insert(button)) by {
        assert forall|n: u32| more.to_set().contains(n) <==> chord.insert(button).contains(n) by {
            assert(before.to_set().contains(n) <==> before.contains(n));
            if before.contains(n) {
                let k = choose|k: int| 0 <= k < before.len() && before[k] == n;
                assert(more[k] == n);
            }
            assert(more[before.len() as int] == button);
            if more.contains(n) && n != button {
                let k = choose|k: int| 0 <= k < more.len() && more[k] == n;
                assert(before[k] == n);
            }
        }
    }
    lemma_ascending(chord.insert(button));
    lemma_ascending_is_unique(ascending(chord.insert(button)), more);
    assert(names_of(more) =~= names_of(before).push(name_of(button)));
    if !chord.is_empty() {
        if before.len() == 0 {
            assert(before.to_set() =~= Set::empty());
        }
        text::lemma_join(names_of(before), name_of(button), " + "@);
    }
}

// ---------------------------------------------------------------------------
// Devices
// ---------------------------------------------------------------------------

pub const SONY_VENDOR_ID: u16 = 0x054C;

pub const DUALSENSE_PRODUCT_ID: u16 = 0x0CE6;

pub const DUALSENSE_EDGE_PRODUCT_ID: u16 = 0x0DF2;

/// What a HID device says of itself.
#[derive(Debug)]
pub struct HidDescription {
    pub vendor_id: u16,
    pub product_id: u16,
    pub usage_page: u16,
    pub usage: u16,
    pub product: Option<String>,
}

/// Whether `part` occurs in `whole`.
pub open spec fn occurs_in(part: Seq<char>, whole: Seq<char>) -> bool {
    exists|at: int|
        0 <= at && at + part.len() <= whole.len() && #[trigger] whole.subrange(
            at,
            at + part.len(),
        ) == part
}

fn holds_text(whole: &str, part: &str) -> (r: bool)
    ensures
        r == occurs_in(part@, whole@),
{
    let all = text::chars_of(whole);
    let wanted = text::chars_of(part);
    if wanted.len() > all.len() {
        return false;
    }
    let last = all.len() - wanted.len();
    let mut at: usize = 0;
    loop
        invariant
            at <= last,
            last == all.len() - wanted.len(),
            all@ == whole@,
            wanted@ == part@,
            forall|k: int|
                0 <= k < at ==> #[trigger] whole@.subrange(k, k + part@.len()) != part@,
        decreases last - at,
    {
        let mut length: usize = 0;
        while length < wanted.len() && all[at + length] == wanted[length]
            invariant
                at <= last,
                last == all.len() - wanted.len(),
                length <= wanted@.len(),
                all@ == whole@,
                wanted@ == part@,
                forall|k: int| 0 <= k < length ==> all@[at + k] == wanted@[k],
            decreases wanted@.len() - length,
        {
            length = length + 1;
        }
        if length == wanted.len() {
            proof {
                assert(whole@.subrange(at as int, at + part@.len()) =~= part@);
            }
            return true;
        }
        proof {
            assert(whole@.subrange(at as int, at + part@.len())[length as int]
                != part@[length as int]);
        }
        if at == last {
            return false;
        }
        at = at + 1;
    }
}

/// Whether a device is a DualSense gamepad: one of Sony's, known by its product
/// id or by its name.
pub open spec fn describes_dualsense(
    vendor_id: u16,
    product_id: u16,
    usage_page: u16,
    usage: u16,
    product: Option<Seq<char>>,
) -> bool {
    &&& vendor_id == SONY_VENDOR_ID
    &&& usage_page == 0x01
    &&& usage == 0x05
    &&& (product_id == DUALSENSE_PRODUCT_ID || product_id == DUALSENSE_EDGE_PRODUCT_ID || (
    product matches Some(name) && occurs_in("dualsense"@, text::lower(name))))
}

/// Only Sony's gamepads are taken for a DualSense. Both known products are,
/// whatever they are called, and so is any other whose name says it, in whatever
/// case.
pub proof fn lemma_dualsense(
    vendor_id: u16,
    product_id: u16,
    usage_page: u16,
    usage: u16,
    product: Option<Seq<char>>,
    before: Seq<char>,
    after: Seq<char>,
)
    ensures
        describes_dualsense(vendor_id, product_id, usage_page, usage, product) ==> vendor_id
            == 0x054C && usage_page == 1 && usage == 5,
        vendor_id == 0x054C && usage_page == 1 && usage == 5 && (product_id == 0x0CE6 || product_id
            == 0x0DF2) ==> describes_dualsense(vendor_id, product_id, usage_page, usage, product),
        vendor_id == 0x054C && usage_page == 1 && usage == 5 && (product matches Some(name)
            && text::lower(name) == before + "dualsense"@ + after) ==> describes_dualsense(
            vendor_id,
            product_id,
            usage_page,
            usage,
            product,
        ),
        product is None && product_id != 0x0CE6 && product_id != 0x0DF2 ==> !describes_dualsense(
            vendor_id,
            product_id,
            usage_page,
            usage,
            product,
        ),
        describes_dualsense(vendor_id, product_id, usage_page, usage, product) && product_id
            != 0x0CE6 && product_id != 0x0DF2 ==> exists|start: Seq<char>, end: Seq<char>|
            text::lower(product->0) == #[trigger] (start + "dualsense"@ + end),
{
    let wanted = "dualsense"@;
    if let Some(name) = product {
        let whole = text::lower(name);
        if whole == before + wanted + after {
            assert(whole.subrange(before.len() as int, (before.len() + wanted.len()) as int) =~= wanted);
        }
        if occurs_in(wanted, whole) {
            let at = choose|at: int|
                0 <= at && at + wanted.len() <= whole.len() && #[trigger] whole.subrange(
                    at,
                    at + wanted.len(),
                ) == wanted;
            assert(whole =~= whole.take(at) + wanted + whole.skip(at + wanted.len()));
        }
    }
}

/// Whether a device is a DualSense gamepad.
pub fn is_dualsense(info: &HidDescription) -> (r: bool)
    ensures
        r == describes_dualsense(
            info.vendor_id,
            info.product_id,
            info.usage_page,
            info.usage,
            crate::model::option_view(info.product),
        ),
{
    if info.vendor_id != SONY_VENDOR_ID || info.usage_page != 0x01 || info.usage != 0x05 {
        return false;
    }
    if info.product_id == DUALSENSE_PRODUCT_ID || info.product_id == DUALSENSE_EDGE_PRODUCT_ID {
        return true;
    }
    match &info.product {
        Some(name) => holds_text(text::lowercase(name.as_str()).as_str(), "dualsense"),
        None => false,
    }
}

} // verus!
