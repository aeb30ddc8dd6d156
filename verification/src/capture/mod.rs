//! Normalized keyboard events: the key's category, the time of the key-down
//! and the modifiers held with it.

pub mod event_tap;
pub mod keymap;
pub mod window;

pub use event_tap::CaptureError;
pub use keymap::{keycode_to_key, key_of, ArrowDirection, KeyType, ModifierKey, SpecialKey};

use crate::text::{join, joined};
use vstd::prelude::*;

verus! {

/// Bit of the modifier mask that is set while Shift is held.
pub const SHIFT_MASK: u64 = 0x0002_0000;

/// Bit of the modifier mask that is set while Control is held.
pub const CONTROL_MASK: u64 = 0x0004_0000;

/// Bit of the modifier mask that is set while Option is held.
pub const OPTION_MASK: u64 = 0x0008_0000;

/// Bit of the modifier mask that is set while Command is held.
pub const COMMAND_MASK: u64 = 0x0010_0000;

/// The modifiers held during a key-down: four independent flags.
#[derive(Debug, Clone, Copy, PartialEq, Eq, Structural)]
pub struct Modifiers {
    pub shift: bool,
    pub control: bool,
    pub option: bool,
    pub command: bool,
}

/// The modifiers that a mask stands for: one flag per mask bit, all other
/// bits ignored.
pub open spec fn modifiers_of(flags: u64) -> Modifiers {
    Modifiers {
        shift: flags & SHIFT_MASK != 0,
        control: flags & CONTROL_MASK != 0,
        option: flags & OPTION_MASK != 0,
        command: flags & COMMAND_MASK != 0,
    }
}

impl Modifiers {
    /// The names of the held modifiers in the order Ctrl, Opt, Shift, Cmd.
    pub open spec fn parts(self) -> Seq<Seq<char>> {
        (if self.control { seq!["Ctrl"@] } else { seq![] })
        + (if self.option { seq!["Opt"@] } else { seq![] })
        + (if self.shift { seq!["Shift"@] } else { seq![] })
        + (if self.command { seq!["Cmd"@] } else { seq![] })
    }

    /// The held modifiers joined by `+`; empty when none is held.
    pub open spec fn label_spec(self) -> Seq<char> {
        joined(self.parts(), "+"@)
    }

    /// Decodes a modifier mask.
    pub fn from_flags(flags: u64) -> (m: Modifiers)
        ensures
            m == modifiers_of(flags),
    {
        Modifiers {
            shift: (flags & SHIFT_MASK) != 0,
            control: (flags & CONTROL_MASK) != 0,
            option: (flags & OPTION_MASK) != 0,
            command: (flags & COMMAND_MASK) != 0,
        }
    }

    /// Whether no modifier is held.
    pub fn is_empty(&self) -> (empty: bool)
        ensures
            empty == (!self.shift && !self.control && !self.option && !self.command),
    {
        !self.shift && !self.control && !self.option && !self.command
    }

    /// The held modifiers joined by `+`, such as `Ctrl+Shift`.
    pub fn label(&self) -> (s: String)
        ensures
            s@ == self.label_spec(),
    {
        let mut parts: Vec<&str> = Vec::new();
        if self.control {
            parts.push("Ctrl");
        }
        if self.option {
            parts.push("Opt");
        }
        if self.shift {
            parts.push("Shift");
        }
        if self.command {
            parts.push("Cmd");
        }
        assert(crate::text::views_of(parts@) == self.parts());
        join(&parts, "+")
    }
}

impl Default for Modifiers {
    fn default() -> (m: Modifiers)
        ensures
            m == (Modifiers { shift: false, control: false, option: false, command: false }),
    {
        Modifiers { shift: false, control: false, option: false, command: false }
    }
}

/// One key-down. `timestamp` counts milliseconds since the Unix epoch, UTC.
#[derive(Debug, Clone, Copy, PartialEq, Eq, Structural)]
pub struct KeyEvent {
    pub keycode: u16,
    pub key_type: KeyType,
    pub timestamp: i64,
    pub modifiers: Modifiers,
}

impl KeyEvent {
    /// Whether the category is the one the key table gives for the code.
    pub open spec fn normalized(self) -> bool {
        self.key_type == key_of(self.keycode)
    }

    /// Normalizes a raw key-down: the category comes from the key table, the
    /// modifiers from the mask. Total: there is no raw input it rejects.
    pub fn new(keycode: u16, timestamp: i64, flags: u64) -> (event: KeyEvent)
        ensures
            event == (KeyEvent {
                keycode,
                key_type: key_of(keycode),
                timestamp,
                modifiers: modifiers_of(flags),
            }),
            event.normalized(),
    {
        KeyEvent {
            keycode,
            key_type: keycode_to_key(keycode),
            timestamp,
            modifiers: Modifiers::from_flags(flags),
        }
    }
}

/// The mask bits are distinct single bits, so each flag is decoded from its
/// own bit whatever the others hold.
pub proof fn lemma_modifier_bits_independent(flags: u64)
    ensures
        modifiers_of(flags).shift == ((flags >> 17) & 1 == 1),
        modifiers_of(flags).control == ((flags >> 18) & 1 == 1),
        modifiers_of(flags).option == ((flags >> 19) & 1 == 1),
        modifiers_of(flags).command == ((flags >> 20) & 1 == 1),
{
    assert((flags & 0x0002_0000 != 0) == ((flags >> 17) & 1 == 1)) by (bit_vector);
    assert((flags & 0x0004_0000 != 0) == ((flags >> 18) & 1 == 1)) by (bit_vector);
    assert((flags & 0x0008_0000 != 0) == ((flags >> 19) & 1 == 1)) by (bit_vector);
    assert((flags & 0x0010_0000 != 0) == ((flags >> 20) & 1 == 1)) by (bit_vector);
}

} // verus!
