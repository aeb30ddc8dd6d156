//! The fixed table from raw key codes to key categories, and the names of
//! the keys.

use vstd::prelude::*;

use crate::text::{ascii_lower, decimal, push_decimal, to_ascii_lower};

verus! {

/// The four arrow keys.
#[derive(Debug, Clone, Copy, PartialEq, Eq, Structural)]
pub enum ArrowDirection {
    Up,
    Down,
    Left,
    Right,
}

/// The keys that modify other keys.
#[derive(Debug, Clone, Copy, PartialEq, Eq, Structural)]
pub enum ModifierKey {
    Shift,
    Control,
    Option,
    Command,
    CapsLock,
    Function,
}

/// The keys that edit or move without printing.
#[derive(Debug, Clone, Copy, PartialEq, Eq, Structural)]
pub enum SpecialKey {
    Return,
    Tab,
    Escape,
    Delete,
    Backspace,
    Space,
    ForwardDelete,
    Home,
    End,
    PageUp,
    PageDown,
}

/// What a key is: one variant per category. Every raw code has exactly one
/// category; a code the table does not list is `Unknown` and keeps its code.
#[derive(Debug, Clone, Copy, PartialEq, Eq, Structural)]
pub enum KeyType {
    Character(char),
    Arrow(ArrowDirection),
    Modifier(ModifierKey),
    Special(SpecialKey),
    Function(u8),
    Unknown(u16),
}

impl ArrowDirection {
    /// The variant's name.
    pub open spec fn title(self) -> Seq<char> {
        match self {
            ArrowDirection::Up => "Up"@,
            ArrowDirection::Down => "Down"@,
            ArrowDirection::Left => "Left"@,
            ArrowDirection::Right => "Right"@,
        }
    }

    /// The variant's name.
    pub fn as_str(&self) -> (s: &'static str)
        ensures
            s@ == self.title(),
    {
        match self {
            ArrowDirection::Up => "Up",
            ArrowDirection::Down => "Down",
            ArrowDirection::Left => "Left",
            ArrowDirection::Right => "Right",
        }
    }
}

impl ModifierKey {
    /// The variant's name.
    pub open spec fn title(self) -> Seq<char> {
        match self {
            ModifierKey::Shift => "Shift"@,
            ModifierKey::Control => "Control"@,
            ModifierKey::Option => "Option"@,
            ModifierKey::Command => "Command"@,
            ModifierKey::CapsLock => "CapsLock"@,
            ModifierKey::Function => "Function"@,
        }
    }

    /// The variant's name.
    pub fn as_str(&self) -> (s: &'static str)
        ensures
            s@ == self.title(),
    {
        match self {
            ModifierKey::Shift => "Shift",
            ModifierKey::Control => "Control",
            ModifierKey::Option => "Option",
            ModifierKey::Command => "Command",
            ModifierKey::CapsLock => "CapsLock",
            ModifierKey::Function => "Function",
        }
    }
}

impl SpecialKey {
    /// The variant's name.
    pub open spec fn title(self) -> Seq<char> {
        match self {
            SpecialKey::Return => "Return"@,
            SpecialKey::Tab => "Tab"@,
            SpecialKey::Escape => "Escape"@,
            SpecialKey::Delete => "Delete"@,
            SpecialKey::Backspace => "Backspace"@,
            SpecialKey::Space => "Space"@,
            SpecialKey::ForwardDelete => "ForwardDelete"@,
            SpecialKey::Home => "Home"@,
            SpecialKey::End => "End"@,
            SpecialKey::PageUp => "PageUp"@,
            SpecialKey::PageDown => "PageDown"@,
        }
    }

    /// The variant's name.
    pub fn as_str(&self) -> (s: &'static str)
        ensures
            s@ == self.title(),
    {
        match self {
            SpecialKey::Return => "Return",
            SpecialKey::Tab => "Tab",
            SpecialKey::Escape => "Escape",
            SpecialKey::Delete => "Delete",
            SpecialKey::Backspace => "Backspace",
            SpecialKey::Space => "Space",
            SpecialKey::ForwardDelete => "ForwardDelete",
            SpecialKey::Home => "Home",
            SpecialKey::End => "End",
            SpecialKey::PageUp => "PageUp",
            SpecialKey::PageDown => "PageDown",
        }
    }
}

/// `word` with every ASCII capital replaced by its lower-case letter.
pub open spec fn lowered(word: Seq<char>) -> Seq<char> {
    Seq::new(word.len(), |i: int| ascii_lower(word[i]))
}

/// `prefix` followed by the lower-case form of `word`.
fn prefixed_lower(prefix: &str, word: &str) -> (s: String)
    ensures
        s@ == prefix@ + lowered(word@),
{
    let mut s = String::from_str(prefix);
    for c in it: word.chars()
        invariant
            it.seq() == word@,
            s@ == prefix@ + lowered(word@).take(it.index() as int),
    {
        s.push(to_ascii_lower(c));
        assert(lowered(word@).take(it.index() + 1) == lowered(word@).take(
            it.index() as int,
        ).push(ascii_lower(c)));
    }
    assert(lowered(word@).take(word@.len() as int) == lowered(word@));
    s
}

impl KeyType {
    /// The key's name in the aggregation store: the character itself, the
    /// category and the lower-case variant for arrows, modifiers and special
    /// keys, `F` and the number for function keys, `unknown:` and the code
    /// for the rest.
    pub open spec fn name_spec(self) -> Seq<char> {
        match self {
            KeyType::Character(c) => seq![c],
            KeyType::Arrow(d) => "arrow:"@ + lowered(d.title()),
            KeyType::Modifier(m) => "modifier:"@ + lowered(m.title()),
            KeyType::Special(k) => "special:"@ + lowered(k.title()),
            KeyType::Function(n) => "F"@ + decimal(n as nat),
            KeyType::Unknown(code) => "unknown:"@ + decimal(code as nat),
        }
    }

    /// The key's label for people: the character itself, the variant's name
    /// for arrows, modifiers and special keys, `F` and the number for function
    /// keys, `Unknown(` the code `)` for the rest.
    pub open spec fn label_spec(self) -> Seq<char> {
        match self {
            KeyType::Character(c) => seq![c],
            KeyType::Arrow(d) => d.title(),
            KeyType::Modifier(m) => m.title(),
            KeyType::Special(k) => k.title(),
            KeyType::Function(n) => "F"@ + decimal(n as nat),
            KeyType::Unknown(code) => "Unknown("@ + decimal(code as nat) + ")"@,
        }
    }

    /// The key's name in the aggregation store.
    pub fn name(&self) -> (s: String)
        ensures
            s@ == self.name_spec(),
    {
        match self {
            KeyType::Character(c) => {
                let mut s = String::new();
                s.push(*c);
                s
            },
            KeyType::Arrow(d) => prefixed_lower("arrow:", d.as_str()),
            KeyType::Modifier(m) => prefixed_lower("modifier:", m.as_str()),
            KeyType::Special(k) => prefixed_lower("special:", k.as_str()),
            KeyType::Function(n) => {
                let mut s = String::from_str("F");
                push_decimal(&mut s, *n as u64);
                s
            },
            KeyType::Unknown(code) => {
                let mut s = String::from_str("unknown:");
                push_decimal(&mut s, *code as u64);
                s
            },
        }
    }

    /// The key's label for people.
    pub fn label(&self) -> (s: String)
        ensures
            s@ == self.label_spec(),
    {
        match self {
            KeyType::Character(c) => {
                let mut s = String::new();
                s.push(*c);
                s
            },
            KeyType::Arrow(d) => String::from_str(d.as_str()),
            KeyType::Modifier(m) => String::from_str(m.as_str()),
            KeyType::Special(k) => String::from_str(k.as_str()),
            KeyType::Function(n) => {
                let mut s = String::from_str("F");
                push_decimal(&mut s, *n as u64);
                s
            },
            KeyType::Unknown(code) => {
                let mut s = String::from_str("Unknown(");
                push_decimal(&mut s, *code as u64);
                s.append(")");
                s
            },
        }
    }
}

/// The key table: the category of each raw key code, in code order.
pub open spec fn key_of(code: u16) -> KeyType {
    match code {
        0 => KeyType::Character('a'),
        1 => KeyType::Character('s'),
        2 => KeyType::Character('d'),
        3 => KeyType::Character('f'),
        4 => KeyType::Character('h'),
        5 => KeyType::Character('g'),
        6 => KeyType::Character('z'),
        7 => KeyType::Character('x'),
        8 => KeyType::Character('c'),
        9 => KeyType::Character('v'),
        11 => KeyType::Character('b'),
        12 => KeyType::Character('q'),
        13 => KeyType::Character('w'),
        14 => KeyType::Character('e'),
        15 => KeyType::Character('r'),
        16 => KeyType::Character('y'),
        17 => KeyType::Character('t'),
        18 => KeyType::Character('1'),
        19 => KeyType::Character('2'),
        20 => KeyType::Character('3'),
        21 => KeyType::Character('4'),
        22 => KeyType::Character('6'),
        23 => KeyType::Character('5'),
        24 => KeyType::Character('='),
        25 => KeyType::Character('9'),
        26 => KeyType::Character('7'),
        27 => KeyType::Character('-'),
        28 => KeyType::Character('8'),
        29 => KeyType::Character('0'),
        30 => KeyType::Character(']'),
        31 => KeyType::Character('o'),
        32 => KeyType::Character('u'),
        33 => KeyType::Character('['),
        34 => KeyType::Character('i'),
        35 => KeyType::Character('p'),
        36 => KeyType::Special(SpecialKey::Return),
        37 => KeyType::Character('l'),
        38 => KeyType::Character('j'),
        39 => KeyType::Character('\''),
        40 => KeyType::Character('k'),
        41 => KeyType::Character(';'),
        42 => KeyType::Character('\\'),
        43 => KeyType::Character(','),
        44 => KeyType::Character('/'),
        45 => KeyType::Character('n'),
        46 => KeyType::Character('m'),
        47 => KeyType::Character('.'),
        48 => KeyType::Special(SpecialKey::Tab),
        49 => KeyType::Special(SpecialKey::Space),
        50 => KeyType::Character('`'),
        51 => KeyType::Special(SpecialKey::Delete),
        53 => KeyType::Special(SpecialKey::Escape),
        54 => KeyType::Modifier(ModifierKey::Command),
        55 => KeyType::Modifier(ModifierKey::Command),
        56 => KeyType::Modifier(ModifierKey::Shift),
        57 => KeyType::Modifier(ModifierKey::CapsLock),
        58 => KeyType::Modifier(ModifierKey::Option),
        59 => KeyType::Modifier(ModifierKey::Control),
        60 => KeyType::Modifier(ModifierKey::Shift),
        61 => KeyType::Modifier(ModifierKey::Option),
        62 => KeyType::Modifier(ModifierKey::Control),
        63 => KeyType::Modifier(ModifierKey::Function),
        96 => KeyType::Function(5),
        97 => KeyType::Function(6),
        98 => KeyType::Function(7),
        99 => KeyType::Function(3),
        100 => KeyType::Function(8),
        101 => KeyType::Function(9),
        103 => KeyType::Function(11),
        109 => KeyType::Function(10),
        111 => KeyType::Function(12),
        115 => KeyType::Special(SpecialKey::Home),
        116 => KeyType::Special(SpecialKey::PageUp),
        117 => KeyType::Special(SpecialKey::ForwardDelete),
        118 => KeyType::Function(4),
        119 => KeyType::Special(SpecialKey::End),
        120 => KeyType::Function(2),
        121 => KeyType::Special(SpecialKey::PageDown),
        122 => KeyType::Function(1),
        123 => KeyType::Arrow(ArrowDirection::Left),
        124 => KeyType::Arrow(ArrowDirection::Right),
        125 => KeyType::Arrow(ArrowDirection::Down),
        126 => KeyType::Arrow(ArrowDirection::Up),
        _ => KeyType::Unknown(code),
    }
}

/// Looks a raw key code up in the table. Total: a code that the table does
/// not list comes back as `Unknown` with the code in it.
pub fn keycode_to_key(keycode: u16) -> (key: KeyType)
    ensures
        key == key_of(keycode),
{
    match keycode {
        // Letters of the QWERTY layout
        0 => KeyType::Character('a'),
        1 => KeyType::Character('s'),
        2 => KeyType::Character('d'),
        3 => KeyType::Character('f'),
        4 => KeyType::Character('h'),
        5 => KeyType::Character('g'),
        6 => KeyType::Character('z'),
        7 => KeyType::Character('x'),
        8 => KeyType::Character('c'),
        9 => KeyType::Character('v'),
        11 => KeyType::Character('b'),
        12 => KeyType::Character('q'),
        13 => KeyType::Character('w'),
        14 => KeyType::Character('e'),
        15 => KeyType::Character('r'),
        16 => KeyType::Character('y'),
        17 => KeyType::Character('t'),
        31 => KeyType::Character('o'),
        32 => KeyType::Character('u'),
        34 => KeyType::Character('i'),
        35 => KeyType::Character('p'),
        37 => KeyType::Character('l'),
        38 => KeyType::Character('j'),
        40 => KeyType::Character('k'),
        45 => KeyType::Character('n'),
        46 => KeyType::Character('m'),
        // Digits
        18 => KeyType::Character('1'),
        19 => KeyType::Character('2'),
        20 => KeyType::Character('3'),
        21 => KeyType::Character('4'),
        23 => KeyType::Character('5'),
        22 => KeyType::Character('6'),
        26 => KeyType::Character('7'),
        28 => KeyType::Character('8'),
        25 => KeyType::Character('9'),
        29 => KeyType::Character('0'),
        // Punctuation
        27 => KeyType::Character('-'),
        24 => KeyType::Character('='),
        33 => KeyType::Character('['),
        30 => KeyType::Character(']'),
        41 => KeyType::Character(';'),
        39 => KeyType::Character('\''),
        42 => KeyType::Character('\\'),
        43 => KeyType::Character(','),
        47 => KeyType::Character('.'),
        44 => KeyType::Character('/'),
        50 => KeyType::Character('`'),
        // Arrows
        123 => KeyType::Arrow(ArrowDirection::Left),
        124 => KeyType::Arrow(ArrowDirection::Right),
        125 => KeyType::Arrow(ArrowDirection::Down),
        126 => KeyType::Arrow(ArrowDirection::Up),
        // Special keys
        36 => KeyType::Special(SpecialKey::Return),
        48 => KeyType::Special(SpecialKey::Tab),
        49 => KeyType::Special(SpecialKey::Space),
        51 => KeyType::Special(SpecialKey::Delete),
        53 => KeyType::Special(SpecialKey::Escape),
        117 => KeyType::Special(SpecialKey::ForwardDelete),
        115 => KeyType::Special(SpecialKey::Home),
        119 => KeyType::Special(SpecialKey::End),
        116 => KeyType::Special(SpecialKey::PageUp),
        121 => KeyType::Special(SpecialKey::PageDown),
        // Function keys
        122 => KeyType::Function(1),
        120 => KeyType::Function(2),
        99 => KeyType::Function(3),
        118 => KeyType::Function(4),
        96 => KeyType::Function(5),
        97 => KeyType::Function(6),
        98 => KeyType::Function(7),
        100 => KeyType::Function(8),
        101 => KeyType::Function(9),
        109 => KeyType::Function(10),
        103 => KeyType::Function(11),
        111 => KeyType::Function(12),
        // Modifiers, left and right
        56 => KeyType::Modifier(ModifierKey::Shift),
        60 => KeyType::Modifier(ModifierKey::Shift),
        59 => KeyType::Modifier(ModifierKey::Control),
        62 => KeyType::Modifier(ModifierKey::Control),
        58 => KeyType::Modifier(ModifierKey::Option),
        61 => KeyType::Modifier(ModifierKey::Option),
        55 => KeyType::Modifier(ModifierKey::Command),
        54 => KeyType::Modifier(ModifierKey::Command),
        57 => KeyType::Modifier(ModifierKey::CapsLock),
        63 => KeyType::Modifier(ModifierKey::Function),
        _ => KeyType::Unknown(keycode),
    }
}

/// An unlisted code keeps its own number, and a listed one never becomes
/// `Unknown`.
pub proof fn lemma_unknown_keeps_code(code: u16)
    ensures
        key_of(code) is Unknown ==> key_of(code) == KeyType::Unknown(code),
        code <= 9 || (11 <= code <= 51) || (53 <= code <= 63) ==> !(key_of(code) is Unknown),
{
}

/// No key code prints a blank: the space bar is a special key, not a
/// character.
pub proof fn lemma_no_code_prints_space(code: u16)
    ensures
        key_of(code) != KeyType::Character(' '),
{
}

/// Every lower-case letter of the Latin alphabet is printed by some key
/// code below 47.
pub proof fn lemma_letters_are_mapped(c: char)
    requires
        'a' <= c <= 'z',
    ensures
        exists|code: u16| code < 47 && #[trigger] key_of(code) == KeyType::Character(c),
{
    let code: u16 = letter_code(c);
    assert(key_of(code) == KeyType::Character(c));
}

/// The code that prints a lower-case letter.
pub open spec fn letter_code(c: char) -> u16 {
    if c == 'a' { 0 } else if c == 's' { 1 } else if c == 'd' { 2 } else if c == 'f' { 3 }
    else if c == 'h' { 4 } else if c == 'g' { 5 } else if c == 'z' { 6 } else if c == 'x' { 7 }
    else if c == 'c' { 8 } else if c == 'v' { 9 } else if c == 'b' { 11 } else if c == 'q' { 12 }
    else if c == 'w' { 13 } else if c == 'e' { 14 } else if c == 'r' { 15 } else if c == 'y' { 16 }
    else if c == 't' { 17 } else if c == 'o' { 31 } else if c == 'u' { 32 } else if c == 'i' { 34 }
    else if c == 'p' { 35 } else if c == 'l' { 37 } else if c == 'j' { 38 } else if c == 'k' { 40 }
    else if c == 'n' { 45 } else { 46 }
}

} // verus!
