//! Canonical model of a single decoded input event: key codes, modifier
//! bitsets, press/repeat/release kinds, and the case-normalization rule that
//! defines equality of key events.

use vstd::prelude::*;
use vstd::string::StringExecFns;

verus! {

/// Bit for the Shift modifier.
pub const MOD_SHIFT: u8 = 0x01;
/// Bit for the Control modifier.
pub const MOD_CONTROL: u8 = 0x02;
/// Bit for the Alt modifier.
pub const MOD_ALT: u8 = 0x04;
/// Bit for the Super modifier.
pub const MOD_SUPER: u8 = 0x08;
/// Bit for the Hyper modifier.
pub const MOD_HYPER: u8 = 0x10;
/// Bit for the Meta modifier.
pub const MOD_META: u8 = 0x20;

/// A set of key modifiers (shift, control, alt, super, hyper, meta) with
/// bitset semantics: union, intersection and membership.
#[derive(Debug, Clone, Copy, PartialEq, Eq, Hash, Structural)]
pub struct KeyModifiers {
    pub bits: u8,
}

impl KeyModifiers {
    /// The mask is contained when all of its bits are present.
    pub open spec fn spec_contains(self, mask: u8) -> bool {
        self.bits & mask == mask
    }

    pub fn empty() -> (r: KeyModifiers)
        ensures
            r.bits == 0,
    {
        KeyModifiers { bits: 0 }
    }

    pub fn from_bits(bits: u8) -> (r: KeyModifiers)
        ensures
            r.bits == bits,
    {
        KeyModifiers { bits }
    }

    pub fn contains(&self, mask: u8) -> (r: bool)
        ensures
            r == self.spec_contains(mask),
    {
        self.bits & mask == mask
    }

    pub fn union(&self, other: &KeyModifiers) -> (r: KeyModifiers)
        ensures
            r.bits == (self.bits | other.bits),
    {
        KeyModifiers { bits: self.bits | other.bits }
    }

    pub fn intersection(&self, other: &KeyModifiers) -> (r: KeyModifiers)
        ensures
            r.bits == (self.bits & other.bits),
    {
        KeyModifiers { bits: self.bits & other.bits }
    }

    pub fn insert(&mut self, mask: u8)
        ensures
            final(self).bits == (old(self).bits | mask),
    {
        self.bits = self.bits | mask;
    }
}

/// `acc` with `name` appended, the parts separated by a plus sign.
pub open spec fn append_part(acc: Seq<char>, name: Seq<char>) -> Seq<char> {
    if acc.len() == 0 {
        acc + name
    } else {
        acc + "+"@ + name
    }
}

fn push_part(out: &mut String, name: &str)
    ensures
        final(out)@ == append_part(old(out)@, name@),
{
    if !out.as_str().is_empty() {
        out.append("+");
    }
    out.append(name);
}

impl KeyModifiers {
    /// The names of the modifiers present, joined by a plus sign, in the
    /// order shift, control, alt, super, hyper, meta.
    pub open spec fn spec_label(self) -> Seq<char> {
        let s0 = Seq::<char>::empty();
        let s1 = if self.bits & MOD_SHIFT != 0 {
            append_part(s0, "Shift"@)
        } else {
            s0
        };
        let s2 = if self.bits & MOD_CONTROL != 0 {
            append_part(s1, "Control"@)
        } else {
            s1
        };
        let s3 = if self.bits & MOD_ALT != 0 {
            append_part(s2, "Alt"@)
        } else {
            s2
        };
        let s4 = if self.bits & MOD_SUPER != 0 {
            append_part(s3, "Super"@)
        } else {
            s3
        };
        let s5 = if self.bits & MOD_HYPER != 0 {
            append_part(s4, "Hyper"@)
        } else {
            s4
        };
        if self.bits & MOD_META != 0 {
            append_part(s5, "Meta"@)
        } else {
            s5
        }
    }

    /// The display form of the modifier set.
    pub fn label(&self) -> (r: String)
        ensures
            r@ == self.spec_label(),
    {
        let mut out = String::new();
        if self.bits & MOD_SHIFT != 0 {
            push_part(&mut out, "Shift");
        }
        if self.bits & MOD_CONTROL != 0 {
            push_part(&mut out, "Control");
        }
        if self.bits & MOD_ALT != 0 {
            push_part(&mut out, "Alt");
        }
        if self.bits & MOD_SUPER != 0 {
            push_part(&mut out, "Super");
        }
        if self.bits & MOD_HYPER != 0 {
            push_part(&mut out, "Hyper");
        }
        if self.bits & MOD_META != 0 {
            push_part(&mut out, "Meta");
        }
        out
    }
}

/// A media key, as part of `KeyCode::Media`.
#[derive(Debug, Clone, Copy, PartialEq, Eq, Hash, Structural)]
pub enum MediaKeyCode {
    Play,
    Pause,
    PlayPause,
    Reverse,
    Stop,
    FastForward,
    Rewind,
    TrackNext,
    TrackPrevious,
    Record,
    LowerVolume,
    RaiseVolume,
    MuteVolume,
}

impl MediaKeyCode {
    /// The display name of the media key.
    pub open spec fn spec_label(self) -> Seq<char> {
        match self {
            MediaKeyCode::Play => "Play"@,
            MediaKeyCode::Pause => "Pause"@,
            MediaKeyCode::PlayPause => "Play/Pause"@,
            MediaKeyCode::Reverse => "Reverse"@,
            MediaKeyCode::Stop => "Stop"@,
            MediaKeyCode::FastForward => "Fast Forward"@,
            MediaKeyCode::Rewind => "Rewind"@,
            MediaKeyCode::TrackNext => "Next Track"@,
            MediaKeyCode::TrackPrevious => "Previous Track"@,
            MediaKeyCode::Record => "Record"@,
            MediaKeyCode::LowerVolume => "Lower Volume"@,
            MediaKeyCode::RaiseVolume => "Raise Volume"@,
            MediaKeyCode::MuteVolume => "Mute Volume"@,
        }
    }

    /// The display name of the media key.
    pub fn label(&self) -> (r: &'static str)
        ensures
            r@ == self.spec_label(),
    {
        match self {
            MediaKeyCode::Play => "Play",
            MediaKeyCode::Pause => "Pause",
            MediaKeyCode::PlayPause => "Play/Pause",
            MediaKeyCode::Reverse => "Reverse",
            MediaKeyCode::Stop => "Stop",
            MediaKeyCode::FastForward => "Fast Forward",
            MediaKeyCode::Rewind => "Rewind",
            MediaKeyCode::TrackNext => "Next Track",
            MediaKeyCode::TrackPrevious => "Previous Track",
            MediaKeyCode::Record => "Record",
            MediaKeyCode::LowerVolume => "Lower Volume",
            MediaKeyCode::RaiseVolume => "Raise Volume",
            MediaKeyCode::MuteVolume => "Mute Volume",
        }
    }
}

/// A modifier key pressed as a key of its own, as part of `KeyCode::Modifier`.
#[derive(Debug, Clone, Copy, PartialEq, Eq, Hash, Structural)]
pub enum ModifierKeyCode {
    LeftShift,
    LeftControl,
    LeftAlt,
    LeftSuper,
    LeftHyper,
    LeftMeta,
    RightShift,
    RightControl,
    RightAlt,
    RightSuper,
    RightHyper,
    RightMeta,
    IsoLevel3Shift,
    IsoLevel5Shift,
}

impl ModifierKeyCode {
    /// The display name of the modifier key.
    pub open spec fn spec_label(self) -> Seq<char> {
        match self {
            ModifierKeyCode::LeftShift => "Left Shift"@,
            ModifierKeyCode::LeftControl => "Left Ctrl"@,
            ModifierKeyCode::LeftAlt => "Left Alt"@,
            ModifierKeyCode::LeftSuper => "Left Super"@,
            ModifierKeyCode::LeftHyper => "Left Hyper"@,
            ModifierKeyCode::LeftMeta => "Left Meta"@,
            ModifierKeyCode::RightShift => "Right Shift"@,
            ModifierKeyCode::RightControl => "Right Ctrl"@,
            ModifierKeyCode::RightAlt => "Right Alt"@,
            ModifierKeyCode::RightSuper => "Right Super"@,
            ModifierKeyCode::RightHyper => "Right Hyper"@,
            ModifierKeyCode::RightMeta => "Right Meta"@,
            ModifierKeyCode::IsoLevel3Shift => "Iso Level 3 Shift"@,
            ModifierKeyCode::IsoLevel5Shift => "Iso Level 5 Shift"@,
        }
    }

    /// The display name of the modifier key.
    pub fn label(&self) -> (r: &'static str)
        ensures
            r@ == self.spec_label(),
    {
        match self {
            ModifierKeyCode::LeftShift => "Left Shift",
            ModifierKeyCode::LeftControl => "Left Ctrl",
            ModifierKeyCode::LeftAlt => "Left Alt",
            ModifierKeyCode::LeftSuper => "Left Super",
            ModifierKeyCode::LeftHyper => "Left Hyper",
            ModifierKeyCode::LeftMeta => "Left Meta",
            ModifierKeyCode::RightShift => "Right Shift",
            ModifierKeyCode::RightControl => "Right Ctrl",
            ModifierKeyCode::RightAlt => "Right Alt",
            ModifierKeyCode::RightSuper => "Right Super",
            ModifierKeyCode::RightHyper => "Right Hyper",
            ModifierKeyCode::RightMeta => "Right Meta",
            ModifierKeyCode::IsoLevel3Shift => "Iso Level 3 Shift",
            ModifierKeyCode::IsoLevel5Shift => "Iso Level 5 Shift",
        }
    }
}

/// A key code: a character, a named key, a function key index, a media key or
/// a modifier pressed as a key.
#[derive(Debug, Clone, Copy, PartialEq, Eq, Hash, Structural)]
pub enum KeyCode {
    Backspace,
    Enter,
    Left,
    Right,
    Up,
    Down,
    Home,
    End,
    PageUp,
    PageDown,
    Tab,
    BackTab,
    Delete,
    Insert,
    F(u8),
    Char(char),
    Null,
    Esc,
    CapsLock,
    ScrollLock,
    NumLock,
    PrintScreen,
    Pause,
    Menu,
    KeypadBegin,
    Media(MediaKeyCode),
    Modifier(ModifierKeyCode),
}

/// Whether a key event is a press, an autorepeat, or a release.
#[derive(Debug, Clone, Copy, PartialEq, Eq, Hash, Structural)]
pub enum KeyEventKind {
    Press,
    Repeat,
    Release,
}

/// An ASCII uppercase letter.
pub open spec fn spec_is_upper(c: char) -> bool {
    'A' <= c && c <= 'Z'
}

/// An ASCII lowercase letter is mapped to its uppercase form; every other
/// character is unchanged.
pub open spec fn spec_upcase(c: char) -> char {
    if 'a' <= c && c <= 'z' {
        (((c as u8) - 32) as char)
    } else {
        c
    }
}

fn upcase_char(c: char) -> (r: char)
    ensures
        r == spec_upcase(c),
{
    if 'a' <= c && c <= 'z' {
        (((c as u8) - 32) as char)
    } else {
        c
    }
}

/// A single key event. Two key events are equal exactly when their
/// case-normalized forms agree field by field (see `spec_normalize`).
#[derive(Debug, Clone, Copy)]
pub struct KeyEvent {
    pub code: KeyCode,
    pub modifiers: KeyModifiers,
    pub kind: KeyEventKind,
}

impl KeyEvent {
    /// The normalization rule: an uppercase letter code forces the Shift
    /// modifier to be present; a non-uppercase character code with Shift
    /// already present is upper-cased. Other codes are left untouched.
    pub open spec fn spec_normalize(self) -> KeyEvent {
        match self.code {
            KeyCode::Char(c) => {
                if spec_is_upper(c) {
                    KeyEvent {
                        code: self.code,
                        modifiers: KeyModifiers { bits: self.modifiers.bits | MOD_SHIFT },
                        kind: self.kind,
                    }
                } else if self.modifiers.spec_contains(MOD_SHIFT) {
                    KeyEvent { code: KeyCode::Char(spec_upcase(c)), modifiers: self.modifiers, kind: self.kind }
                } else {
                    self
                }
            },
            _ => self,
        }
    }

    pub fn new(code: KeyCode, modifiers: KeyModifiers, kind: KeyEventKind) -> (r: KeyEvent)
        ensures
            r == (KeyEvent { code, modifiers, kind }),
    {
        KeyEvent { code, modifiers, kind }
    }

    /// The canonical form used for equality: see `spec_normalize`.
    pub fn normalize_case(self) -> (r: KeyEvent)
        ensures
            r == self.spec_normalize(),
    {
        match self.code {
            KeyCode::Char(c) => {
                if 'A' <= c && c <= 'Z' {
                    KeyEvent {
                        code: self.code,
                        modifiers: KeyModifiers { bits: self.modifiers.bits | MOD_SHIFT },
                        kind: self.kind,
                    }
                } else if self.modifiers.contains(MOD_SHIFT) {
                    KeyEvent { code: KeyCode::Char(upcase_char(c)), modifiers: self.modifiers, kind: self.kind }
                } else {
                    self
                }
            },
            _ => self,
        }
    }
}

impl PartialEq for KeyEvent {
    fn eq(&self, other: &KeyEvent) -> (r: bool) {
        let a = self.normalize_case();
        let b = other.normalize_case();
        a.code == b.code && a.modifiers == b.modifiers && a.kind == b.kind
    }
}

impl vstd::std_specs::cmp::PartialEqSpecImpl for KeyEvent {
    open spec fn obeys_eq_spec() -> bool {
        true
    }

    open spec fn eq_spec(&self, other: &KeyEvent) -> bool {
        self.spec_normalize() == other.spec_normalize()
    }
}

/// Normalizing twice gives the same event as normalizing once, so the
/// canonical form is a fixed point of the rule.
pub proof fn lemma_normalize_idempotent(e: KeyEvent)
    ensures
        e.spec_normalize().spec_normalize() == e.spec_normalize(),
{
    let n = e.spec_normalize();
    let b = e.modifiers.bits;
    match e.code {
        KeyCode::Char(c) => {
            if spec_is_upper(c) {
                assert((b | 0x01) | 0x01 == b | 0x01) by (bit_vector);
            } else if e.modifiers.spec_contains(MOD_SHIFT) {
                if 'a' <= c && c <= 'z' {
                    assert(spec_is_upper(spec_upcase(c)));
                    assert(b | 0x01 == b) by (bit_vector)
                        requires
                            b & 0x01 == 0x01,
                    ;
                } else {
                    assert(n == e.spec_normalize());
                }
            }
        },
        _ => {},
    }
}

/// A decoded terminal input event. Only `Key` events drive the keybinding
/// resolver; the other variants are passed through to the application.
#[derive(Debug, Clone)]
pub enum Event {
    FocusGained,
    FocusLost,
    Key(KeyEvent),
    Mouse(MouseEvent),
    Paste(String),
    Resize(u16, u16),
}

/// A mouse event: position only, as far as this core reads it.
#[derive(Debug, Clone, Copy, PartialEq, Eq, Structural)]
pub struct MouseEvent {
    pub column: u16,
    pub row: u16,
}

} // verus!
