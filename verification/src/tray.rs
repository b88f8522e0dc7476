//! The tray icon: what the user asks for with it.

use vstd::prelude::*;
use vstd::string::*;
use crate::text;

verus! {

/// The command of the menu entry that opens the window.
pub const MENU_OPEN: usize = 1;

/// The command of the menu entry that quits.
pub const MENU_QUIT: usize = 2;

/// The message of a double click with the left button.
pub const WM_LBUTTONDBLCLK: u32 = 0x0203;

/// The message of the right button being released.
pub const WM_RBUTTONUP: u32 = 0x0205;

/// What the tray icon has to tell.
#[derive(Debug)]
pub enum TrayEvent {
    OpenRequested,
    ExitRequested,
    Error(String),
}

/// What a message on the tray icon leads to.
#[derive(Debug, Clone, Copy, PartialEq, Eq, Structural)]
pub enum IconAction {
    Open,
    ShowMenu,
    Nothing,
}

/// What a message on the tray icon leads to.
pub fn icon_action(message: u32) -> (r: IconAction)
    ensures
        r == (if message == WM_LBUTTONDBLCLK {
            IconAction::Open
        } else if message == WM_RBUTTONUP {
            IconAction::ShowMenu
        } else {
            IconAction::Nothing
        }),
{
    if message == WM_LBUTTONDBLCLK {
        IconAction::Open
    } else if message == WM_RBUTTONUP {
        IconAction::ShowMenu
    } else {
        IconAction::Nothing
    }
}

/// What a command of the tray menu asks for; closing the menu asks for nothing.
pub fn menu_event(command: usize) -> (r: Option<TrayEvent>)
    ensures
        r is Some <==> command == MENU_OPEN || command == MENU_QUIT,
        command == MENU_OPEN ==> r == Some(TrayEvent::OpenRequested),
        command == MENU_QUIT ==> r == Some(TrayEvent::ExitRequested),
{
    if command == MENU_OPEN {
        Some(TrayEvent::OpenRequested)
    } else if command == MENU_QUIT {
        Some(TrayEvent::ExitRequested)
    } else {
        None
    }
}

/// A buffer of `length` units with as much of a text as fits before the zero
/// at its end, and zeros behind it.
pub open spec fn filled(content: Seq<char>, length: nat) -> Seq<u16> {
    let units = text::encode_utf16(content);
    Seq::new(
        length,
        |i: int|
            if i < units.len() && i < length - 1 {
                units[i]
            } else {
                0
            },
    )
}

/// Whatever the text, the buffer ends with a zero.
pub proof fn lemma_filled_is_terminated(content: Seq<char>, length: nat)
    requires
        length > 0,
    ensures
        filled(content, length).len() == length,
        filled(content, length).last() == 0,
{
}

/// The buffer begins with the text in UTF-16; a text that fits reads back from
/// before the first of the zeros behind it, and one that does not is cut off.
pub proof fn lemma_filled(content: Seq<char>, length: nat, at: int)
    requires
        0 <= at < length,
    ensures
        at < text::encode_utf16(content).len() && at < length - 1 ==> filled(content, length)[at]
            == text::encode_utf16(content)[at],
        at >= text::encode_utf16(content).len() || at == length - 1 ==> filled(content, length)[at]
            == 0,
        text::encode_utf16(content).len() < length ==> text::decode_utf16(
            filled(content, length).take(text::encode_utf16(content).len() as int),
        ) == content,
{
    let units = text::encode_utf16(content);
    if units.len() < length {
        assert(filled(content, length).take(units.len() as int) =~= units);
        text::lemma_utf16_reads_back(content);
    }
}

/// The numbers that Windows gives to the menu entries and to the messages of a
/// double click and of the right button.
pub proof fn lemma_tray_numbers()
    ensures
        MENU_OPEN == 1 && MENU_QUIT == 2,
        WM_LBUTTONDBLCLK == 0x203 && WM_RBUTTONUP == 0x205,
{
}

/// Fills a buffer with as much of a text as fits before the zero at its end.
pub fn copy_wide(content: &str, destination: &mut Vec<u16>)
    ensures
        final(destination)@ == filled(content@, old(destination)@.len()),
{
    let units = text::utf16_of(content);
    let length = destination.len();
    let mut out: Vec<u16> = Vec::new();
    let mut at: usize = 0;
    while at < length
        invariant
            at <= length,
            units@ == text::encode_utf16(content@),
            out@ == filled(content@, length as nat).take(at as int),
        decreases length - at,
    {
        let unit = if at < units.len() && at < length - 1 {
            units[at]
        } else {
            0
        };
        out.push(unit);
        proof {
            assert(filled(content@, length as nat).take(at + 1) =~= filled(
                content@,
                length as nat,
            ).take(at as int).push(unit));
        }
        at = at + 1;
    }
    proof {
        assert(filled(content@, length as nat).take(length as int) =~= filled(
            content@,
            length as nat,
        ));
    }
    *destination = out;
}

} // verus!
