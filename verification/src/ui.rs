use vstd::prelude::*;

verus! {

/// The two typefaces of the interface.
#[derive(Clone, Copy, PartialEq, Eq, Structural, Debug)]
pub enum Font {
    Bold,
    Medium,
}

impl Font {
    /// The asset file of the typeface.
    pub fn get(self) -> (path: &'static str)
        ensures
            self == Font::Bold ==> path@ == "Paperlogy-7Bold.ttf"@,
            self == Font::Medium ==> path@ == "Paperlogy-5Medium.ttf"@,
    {
        match self {
            Font::Bold => "Paperlogy-7Bold.ttf",
            Font::Medium => "Paperlogy-5Medium.ttf",
        }
    }
}

/// The screens of the program; `Hidden` while the chat room is shown.
#[derive(Clone, Copy, PartialEq, Eq, Structural, Debug)]
pub enum MainState {
    MainHome,
    Setting,
    Host,
    Join,
    Hidden,
}

/// Whether the menu over the chat room is shown.
#[derive(Clone, Copy, PartialEq, Eq, Structural, Debug)]
pub enum ModalState {
    Display,
    Hidden,
}

impl ModalState {
    /// The Escape key: the menu opens or closes, and the chat field takes the
    /// focus back when it closes.
    pub fn on_escape(self) -> (r: (ModalState, bool))
        ensures
            self == ModalState::Display ==> r == (ModalState::Hidden, true),
            self == ModalState::Hidden ==> r == (ModalState::Display, false),
    {
        match self {
            ModalState::Display => (ModalState::Hidden, true),
            ModalState::Hidden => (ModalState::Display, false),
        }
    }
}

/// The screen before the current one, as the screen tracker updates it: when the
/// screen changes, the one it left becomes the last screen. `seen` is the screen
/// the tracker saw before; the result is the new last screen and the new seen one.
pub fn track_screen(last: Option<MainState>, seen: Option<MainState>, current: MainState) -> (r: (
    Option<MainState>,
    Option<MainState>,
))
    ensures
        seen == Some(current) ==> r == (last, seen),
        seen != Some(current) ==> r == (
            if seen is Some {
                seen
            } else {
                last
            },
            Some(current),
        ),
{
    if seen == Some(current) {
        (last, seen)
    } else {
        let new_last = match seen {
            Some(s) => Some(s),
            None => last,
        };
        (new_last, Some(current))
    }
}

/// Where the back button leads: the last screen, or the home screen.
pub fn back_target(last: Option<MainState>) -> (s: MainState)
    ensures
        s == match last {
            Some(l) => l,
            None => MainState::MainHome,
        },
{
    match last {
        Some(l) => l,
        None => MainState::MainHome,
    }
}

/// Whether the chat room is shown (and its field focused) on a screen.
pub fn talk_visible(state: MainState) -> (b: bool)
    ensures
        b == (state == MainState::Hidden),
{
    state == MainState::Hidden
}

/// A decimal digit.
pub open spec fn is_digit(c: char) -> bool {
    48 <= (c as u32) <= 57
}

/// The number that a string of decimal digits stands for.
pub open spec fn digits_value(s: Seq<char>) -> nat
    decreases s.len(),
{
    if s.len() == 0 {
        0
    } else {
        digits_value(s.drop_last()) * 10 + ((s.last() as u32) - 48) as nat
    }
}

/// What `u32::from_str` makes of a text: an optional `+`, then one or more
/// decimal digits, whose value fits in 32 bits.
pub open spec fn parse_u32_spec(s: Seq<char>) -> Option<u32> {
    let d = if s.len() > 0 && s[0] == '+' {
        s.drop_first()
    } else {
        s
    };
    if d.len() == 0 || exists|i: int| 0 <= i < d.len() && !is_digit(#[trigger] d[i]) {
        None
    } else if digits_value(d) > u32::MAX {
        None
    } else {
        Some(digits_value(d) as u32)
    }
}

/// Calls `str::parse::<u32>`, which the standard library documents as reading an
/// optional `+` and decimal digits, failing on anything else or on overflow.
#[verifier::external_body]
fn parse_u32(s: &str) -> (r: Option<u32>)
    ensures
        r == parse_u32_spec(s@),
{
    s.parse::<u32>().ok()
}

/// The port a host listens on for the text typed in the port field: the number
/// modulo 65536 when the text is one, else the text's hash modulo 65536.
pub fn host_port(text: &str, text_hash: u64) -> (port: u32)
    ensures
        port == match parse_u32_spec(text@) {
            Some(n) => n % 65536,
            None => (text_hash % 65536) as u32,
        },
        port < 65536,
{
    match parse_u32(text) {
        Some(n) => n % 65536,
        None => (text_hash % 65536) as u32,
    }
}

} // verus!
