use vstd::prelude::*;

use crate::text::{decimal, decimal_text, text_is};

verus! {

/// The modifier keys held during a desktop input.
#[derive(Copy, Clone, Debug, Default, PartialEq, Eq, Structural)]
pub struct InputModifiers {
    pub shift: bool,
    pub control: bool,
}

#[derive(Copy, Clone, Debug, PartialEq, Eq, Structural)]
pub enum PointerButton {
    Primary,
    Secondary,
}

/// What the shell must do after an input: whether the battle window asked
/// to close.
#[derive(Copy, Clone, Debug, Default, PartialEq, Eq, Structural)]
pub struct InputOutcome {
    pub close_requested: bool,
}

pub open spec fn spec_selection_kind(modifiers: InputModifiers) -> Seq<char> {
    if modifiers.control {
        "selectToggle"@
    } else if modifiers.shift {
        "selectAdd"@
    } else {
        "selectReplace"@
    }
}

/// The selection request a click makes: control toggles, shift adds, a
/// plain click replaces.
pub fn selection_kind(modifiers: InputModifiers) -> (kind: &'static str)
    ensures
        kind@ == spec_selection_kind(modifiers),
{
    if modifiers.control {
        "selectToggle"
    } else if modifiers.shift {
        "selectAdd"
    } else {
        "selectReplace"
    }
}

pub open spec fn digit_prefix() -> Seq<char> {
    seq!['D', 'i', 'g', 'i', 't']
}

/// The digit of a keyboard code `Digit0` to `Digit9`.
pub open spec fn spec_digit_from_code(code: Seq<char>) -> Option<u8> {
    if code.len() == 6 && code.subrange(0, 5) == digit_prefix() && '0' <= code[5] <= '9' {
        Some((code[5] as u32 - '0' as u32) as u8)
    } else {
        None
    }
}

pub fn digit_from_code(code: &str) -> (digit: Option<u8>)
    ensures
        digit == spec_digit_from_code(code@),
{
    if code.unicode_len() != 6 {
        return None;
    }
    let mut i: usize = 0;
    while i < 5
        invariant
            i <= 5,
            code@.len() == 6,
            forall|k: int| 0 <= k < i ==> code@[k] == digit_prefix()[k],
        decreases 5 - i,
    {
        let expected = match i {
            0 => 'D',
            1 => 'i',
            2 => 'g',
            3 => 'i',
            _ => 't',
        };
        if code.get_char(i) != expected {
            assert(code@.subrange(0, 5)[i as int] != digit_prefix()[i as int]);
            return None;
        }
        i += 1;
    }
    assert(code@.subrange(0, 5) =~= digit_prefix());
    let last = code.get_char(5);
    if last < '0' || last > '9' {
        return None;
    }
    Some((last as u32 - '0' as u32) as u8)
}

/// What a key press asks of the battle window.
#[derive(Copy, Clone, Debug, PartialEq, Eq, Structural)]
pub enum KeyCommand {
    Close,
    PanLeft,
    PanRight,
    PanUp,
    PanDown,
    ZoomIn,
    ZoomOut,
    FitCamera,
    StopSelected,
    AssignControlGroup { group: u8 },
    RecallControlGroup { group: u8, additive: bool },
    Nothing,
}

/// Escape closes the window; arrows pan; `=` and `-` (on either keyboard
/// part) zoom; space fits the camera; `S` stops the selection; a digit
/// recalls its control group, adding to the selection with shift, or
/// stores the selection as that group with control.
pub open spec fn spec_key_command(code: Seq<char>, modifiers: InputModifiers) -> KeyCommand {
    if code == "Escape"@ {
        KeyCommand::Close
    } else if code == "ArrowLeft"@ {
        KeyCommand::PanLeft
    } else if code == "ArrowRight"@ {
        KeyCommand::PanRight
    } else if code == "ArrowUp"@ {
        KeyCommand::PanUp
    } else if code == "ArrowDown"@ {
        KeyCommand::PanDown
    } else if code == "Equal"@ || code == "NumpadAdd"@ {
        KeyCommand::ZoomIn
    } else if code == "Minus"@ || code == "NumpadSubtract"@ {
        KeyCommand::ZoomOut
    } else if code == "Space"@ {
        KeyCommand::FitCamera
    } else if code == "KeyS"@ {
        KeyCommand::StopSelected
    } else {
        match spec_digit_from_code(code) {
            Some(group) => if modifiers.control {
                KeyCommand::AssignControlGroup { group }
            } else {
                KeyCommand::RecallControlGroup { group, additive: modifiers.shift }
            },
            None => KeyCommand::Nothing,
        }
    }
}

pub fn key_command(code: &str, modifiers: InputModifiers) -> (command: KeyCommand)
    ensures
        command == spec_key_command(code@, modifiers),
{
    if text_is(code, "Escape") {
        KeyCommand::Close
    } else if text_is(code, "ArrowLeft") {
        KeyCommand::PanLeft
    } else if text_is(code, "ArrowRight") {
        KeyCommand::PanRight
    } else if text_is(code, "ArrowUp") {
        KeyCommand::PanUp
    } else if text_is(code, "ArrowDown") {
        KeyCommand::PanDown
    } else if text_is(code, "Equal") || text_is(code, "NumpadAdd") {
        KeyCommand::ZoomIn
    } else if text_is(code, "Minus") || text_is(code, "NumpadSubtract") {
        KeyCommand::ZoomOut
    } else if text_is(code, "Space") {
        KeyCommand::FitCamera
    } else if text_is(code, "KeyS") {
        KeyCommand::StopSelected
    } else {
        match digit_from_code(code) {
            Some(group) => if modifiers.control {
                KeyCommand::AssignControlGroup { group }
            } else {
                KeyCommand::RecallControlGroup { group, additive: modifiers.shift }
            },
            None => KeyCommand::Nothing,
        }
    }
}

/// Browser inputs arrive numbered from one; only the expected number is
/// accepted, and the next one is then expected.
pub fn accept_browser_sequence(expected: u64, received: u64) -> (next: Result<u64, String>)
    ensures
        match next {
            Ok(n) => received == expected && n == (if expected < u64::MAX { expected + 1 } else {
                expected as int
            }),
            Err(m) => received != expected && m@ == "desktop tactical input sequence mismatch: expected "@
                + decimal(expected as nat) + ", received "@ + decimal(received as nat),
        },
{
    if received != expected {
        let mut message = crate::text::owned("desktop tactical input sequence mismatch: expected ");
        let first = decimal_text(expected);
        message.append(first.as_str());
        message.append(", received ");
        let second = decimal_text(received);
        message.append(second.as_str());
        return Err(message);
    }
    Ok(expected.saturating_add(1))
}

/// Whether the battle surface reads input through the browser overlay: on
/// the platforms whose native window sits under a web view.
pub fn browser_input_enabled(target_os: &str) -> (enabled: bool)
    ensures
        enabled == (target_os@ == "windows"@ || target_os@ == "macos"@),
{
    let os = crate::text::owned(target_os);
    let windows = crate::text::owned("windows");
    let macos = crate::text::owned("macos");
    os == windows || os == macos
}

/// What opening the native battle window reports: whether its input comes
/// through the browser overlay.
#[derive(Copy, Clone, Debug, PartialEq, Eq, Structural)]
pub struct NativeBattleOpenResult {
    browser_input: bool,
}

impl NativeBattleOpenResult {
    pub closed spec fn spec_browser_input(self) -> bool {
        self.browser_input
    }

    /// The report of a battle window opened on `target_os`.
    pub fn for_target(target_os: &str) -> (result: Self)
        ensures
            result.spec_browser_input() == (target_os@ == "windows"@ || target_os@ == "macos"@),
    {
        NativeBattleOpenResult { browser_input: browser_input_enabled(target_os) }
    }

    pub fn browser_input(&self) -> (browser_input: bool)
        ensures
            browser_input == self.spec_browser_input(),
    {
        self.browser_input
    }
}

/// The interval between rendered frames: about sixty a second.
pub const FRAME_INTERVAL_MS: u64 = 16;

} // verus!
