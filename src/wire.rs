//! Event codes, errors and big-endian field decoding shared by the replay
//! container parsers.

use vstd::prelude::*;


verus! {

pub const EVENT_PAYLOADS: u8 = 0x35;
pub const GAME_START: u8 = 0x36;
pub const PRE_FRAME_UPDATE: u8 = 0x37;
pub const POST_FRAME_UPDATE: u8 = 0x38;
pub const GAME_END: u8 = 0x39;
pub const ITEM_UPDATE: u8 = 0x3B;
pub const FRAME_BOOKEND: u8 = 0x3C;

/// Added to the replay's signed frame counter to make frame indices
/// non-negative.
pub const FRAME_INDEX_OFFSET: u32 = 123;

/// Bit pattern of the float 1.0, the facing value that means "right".
pub const FLOAT_ONE_BITS: u32 = 0x3F80_0000;

#[derive(Clone, Copy, Debug, PartialEq, Eq, Structural)]
pub enum InvalidLocation {
    EventSizes,
    GameStart,
    PreFrameUpdate,
    PostFrameUpdate,
    FrameBookend,
    ItemUpdate,
    EventStream,
    SlpzDecompression,
}

#[derive(Clone, Copy, Debug, PartialEq, Eq, Structural)]
pub enum SlpError {
    NotAnSlpFile,
    InvalidFile(InvalidLocation),
    OutdatedFile,
    TooNewFile,
    IOError,
}

/// A two-component vector of single-precision float bit patterns.
#[derive(Clone, Copy, Debug, PartialEq, Eq, Structural)]
pub struct Vector {
    pub x: u32,
    pub y: u32,
}

#[derive(Clone, Copy, Debug, PartialEq, Eq, Structural)]
pub enum Direction {
    Left,
    Right,
}

pub open spec fn null_vector() -> Vector {
    Vector { x: 0, y: 0 }
}

impl Vector {
    pub fn null() -> (r: Vector)
        ensures
            r == null_vector(),
    {
        Vector { x: 0, y: 0 }
    }
}

pub open spec fn be16_at(s: Seq<u8>, i: int) -> int {
    256 * s[i] + s[i + 1]
}

pub open spec fn be32_at(s: Seq<u8>, i: int) -> int {
    16777216 * s[i] + 65536 * s[i + 1] + 256 * s[i + 2] + s[i + 3]
}

/// The big-endian two's-complement 32-bit value at `i`.
pub open spec fn be_i32_at(s: Seq<u8>, i: int) -> int {
    if be32_at(s, i) >= 0x8000_0000 {
        be32_at(s, i) - 0x1_0000_0000
    } else {
        be32_at(s, i)
    }
}

pub(crate) fn byte_at(b: &[u8], at: usize) -> (r: u8)
    requires
        at < b@.len(),
    ensures
        r == b@[at as int],
{
    b[at]
}

pub(crate) fn be_u16_at(b: &[u8], at: usize) -> (r: u16)
    requires
        at + 2 <= b@.len(),
    ensures
        r as int == be16_at(b@, at as int),
{
    (b[at] as u16) * 256 + (b[at + 1] as u16)
}

pub(crate) fn be_u32_at(b: &[u8], at: usize) -> (r: u32)
    requires
        at + 4 <= b@.len(),
    ensures
        r as int == be32_at(b@, at as int),
{
    (b[at] as u32) * 16777216 + (b[at + 1] as u32) * 65536 + (b[at + 2] as u32) * 256 + (b[at
        + 3] as u32)
}

pub(crate) fn read_vector(b: &[u8], at: usize) -> (r: Vector)
    requires
        at + 8 <= b@.len(),
    ensures
        r == vector_at(b@, at as int),
{
    let _len = b.len();
    Vector { x: be_u32_at(b, at), y: be_u32_at(b, at + 4) }
}

pub open spec fn vector_at(s: Seq<u8>, i: int) -> Vector {
    Vector { x: be32_at(s, i) as u32, y: be32_at(s, i + 4) as u32 }
}

} // verus!
