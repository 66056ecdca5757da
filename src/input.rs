//! Keyboard input: bytes read from a raw-mode terminal, and the keys that
//! steer the viewer.
use vstd::prelude::*;
use crate::view_mode::ViewMode;

verus! {

/// What the first byte of a UTF-8 sequence says.
#[derive(Clone, Copy, Debug, PartialEq, Eq, Structural)]
pub enum LeadByte {
    /// A one-byte (ASCII) character.
    Ascii(u8),
    /// The first byte of a longer character, whose remaining `n` bytes are
    /// to be skipped.
    Skip(usize),
    /// A continuation byte or a byte that no UTF-8 sequence starts with.
    Invalid,
}

/// Classifies the first byte of a UTF-8 sequence by its high bits.
pub fn classify_lead_byte(byte: u8) -> (r: LeadByte)
    ensures
        byte < 0x80 ==> r == LeadByte::Ascii(byte),
        0xc0 <= byte < 0xe0 ==> r == LeadByte::Skip(1),
        0xe0 <= byte < 0xf0 ==> r == LeadByte::Skip(2),
        0xf0 <= byte < 0xf8 ==> r == LeadByte::Skip(3),
        (0x80 <= byte < 0xc0 || 0xf8 <= byte) ==> r == LeadByte::Invalid,
{
    proof {
        assert((byte >> 7u8 == 0) == (byte < 0x80)) by (bit_vector);
        assert((byte >> 5u8 == 0x6) == (0xc0 <= byte && byte < 0xe0)) by (bit_vector);
        assert((byte >> 4u8 == 0xe) == (0xe0 <= byte && byte < 0xf0)) by (bit_vector);
        assert((byte >> 3u8 == 0x1e) == (0xf0 <= byte && byte < 0xf8)) by (bit_vector);
    }
    if byte >> 7 == 0 {
        LeadByte::Ascii(byte)
    } else if byte >> 5 == 0x6 {
        LeadByte::Skip(1)
    } else if byte >> 4 == 0xe {
        LeadByte::Skip(2)
    } else if byte >> 3 == 0x1e {
        LeadByte::Skip(3)
    } else {
        LeadByte::Invalid
    }
}

/// A direction in which the camera orbit is pushed.
#[derive(Clone, Copy, Debug, PartialEq, Eq, Structural)]
pub enum Direction {
    Left,
    Down,
    Up,
    Right,
}

/// What a key asks of the viewer.
#[derive(Clone, Copy, Debug, PartialEq, Eq, Structural)]
pub enum Command {
    SetViewMode(ViewMode),
    Quit,
    Accelerate(Direction),
}

/// The command of each key: `1` to `4` pick a view mode, escape and `q`
/// quit, and `h`, `j`, `k`, `l` push the camera left, down, up and right.
pub open spec fn spec_command(key: u8) -> Option<Command> {
    if key == 0x31 {
        Some(Command::SetViewMode(ViewMode::Color))
    } else if key == 0x32 {
        Some(Command::SetViewMode(ViewMode::Normal))
    } else if key == 0x33 {
        Some(Command::SetViewMode(ViewMode::Depth))
    } else if key == 0x34 {
        Some(Command::SetViewMode(ViewMode::Complexity))
    } else if key == 0x1b || key == 0x71 {
        Some(Command::Quit)
    } else if key == 0x68 {
        Some(Command::Accelerate(Direction::Left))
    } else if key == 0x6a {
        Some(Command::Accelerate(Direction::Down))
    } else if key == 0x6b {
        Some(Command::Accelerate(Direction::Up))
    } else if key == 0x6c {
        Some(Command::Accelerate(Direction::Right))
    } else {
        None
    }
}

/// The command of an ASCII key, if it has one.
pub fn command_for_key(key: u8) -> (r: Option<Command>)
    ensures
        r == spec_command(key),
{
    match key {
        0x31 => Some(Command::SetViewMode(ViewMode::Color)),
        0x32 => Some(Command::SetViewMode(ViewMode::Normal)),
        0x33 => Some(Command::SetViewMode(ViewMode::Depth)),
        0x34 => Some(Command::SetViewMode(ViewMode::Complexity)),
        0x1b | 0x71 => Some(Command::Quit),
        0x68 => Some(Command::Accelerate(Direction::Left)),
        0x6a => Some(Command::Accelerate(Direction::Down)),
        0x6b => Some(Command::Accelerate(Direction::Up)),
        0x6c => Some(Command::Accelerate(Direction::Right)),
        _ => None,
    }
}

} // verus!
