//! The replay container's fixed header, its event-size table, item
//! records, and where the game start and metadata lie.

use vstd::prelude::*;

use crate::wire::{
    Direction, EVENT_PAYLOADS, FLOAT_ONE_BITS, FRAME_INDEX_OFFSET, GAME_START, ITEM_UPDATE,
    InvalidLocation, SlpError, Vector, be16_at, be32_at, be_i32_at, be_u16_at, be_u32_at,
    read_vector, vector_at,
};

verus! {

/// Newest compressed-container format version that is read.
pub const MAX_SUPPORTED_SLPZ_VERSION: u32 = 0;

/// Bytes before the event-size table: the magic and the raw length.
pub const HEADER_LEN: usize = 15;

/// Bytes of the compressed container's fixed header.
pub const SLPZ_HEADER_LEN: usize = 24;

/// The magic that opens a container.
pub open spec fn magic() -> Seq<u8> {
    seq![0x7Bu8, 0x55u8, 0x03u8, 0x72u8, 0x61u8, 0x77u8, 0x5Bu8, 0x24u8, 0x55u8, 0x23u8, 0x6Cu8]
}

#[derive(Clone, Copy, Debug, PartialEq, Eq, Structural)]
pub struct RawHeaderRet {
    pub event_sizes_offset: usize,
    pub metadata_offset: usize,
}

pub open spec fn raw_header_ok(s: Seq<u8>) -> bool {
    &&& s.len() >= HEADER_LEN
    &&& s.subrange(0, 11) == magic()
    &&& HEADER_LEN + be32_at(s, 11) <= usize::MAX
}

fn has_magic(slp: &[u8]) -> (r: bool)
    requires
        slp@.len() >= 11,
    ensures
        r == (slp@.subrange(0, 11) == magic()),
{
    let r = slp[0] == 0x7B && slp[1] == 0x55 && slp[2] == 0x03 && slp[3] == 0x72 && slp[4] == 0x61
        && slp[5] == 0x77 && slp[6] == 0x5B && slp[7] == 0x24 && slp[8] == 0x55 && slp[9] == 0x23
        && slp[10] == 0x6C;
    proof {
        if r {
            assert(slp@.subrange(0, 11) =~= magic());
        } else if slp@.subrange(0, 11) == magic() {
            assert(slp@.subrange(0, 11)[0] == magic()[0]);
            assert(slp@.subrange(0, 11)[1] == magic()[1]);
            assert(slp@.subrange(0, 11)[2] == magic()[2]);
            assert(slp@.subrange(0, 11)[3] == magic()[3]);
            assert(slp@.subrange(0, 11)[4] == magic()[4]);
            assert(slp@.subrange(0, 11)[5] == magic()[5]);
            assert(slp@.subrange(0, 11)[6] == magic()[6]);
            assert(slp@.subrange(0, 11)[7] == magic()[7]);
            assert(slp@.subrange(0, 11)[8] == magic()[8]);
            assert(slp@.subrange(0, 11)[9] == magic()[9]);
            assert(slp@.subrange(0, 11)[10] == magic()[10]);
        }
    }
    r
}

/// Checks the container magic and locates the event-size table (right after
/// the raw-length field) and the metadata (raw length bytes after the table).
pub fn parse_raw_header(slp: &[u8]) -> (r: Result<RawHeaderRet, SlpError>)
    ensures
        r is Ok <==> raw_header_ok(slp@),
        match r {
            Ok(h) => h.event_sizes_offset == HEADER_LEN && h.metadata_offset == HEADER_LEN + be32_at(slp@, 11),
            Err(e) => e == SlpError::NotAnSlpFile,
        },
{
    if slp.len() < HEADER_LEN {
        return Err(SlpError::NotAnSlpFile);
    }
    if !has_magic(slp) {
        return Err(SlpError::NotAnSlpFile);
    }
    let raw_len = be_u32_at(slp, 11);
    if raw_len as u64 > usize::MAX as u64 - HEADER_LEN as u64 {
        return Err(SlpError::NotAnSlpFile);
    }
    Ok(RawHeaderRet { event_sizes_offset: HEADER_LEN, metadata_offset: HEADER_LEN + raw_len as usize })
}

#[derive(Clone, Debug)]
pub struct EventSizesRet {
    pub game_start_offset: usize,
    /// Payload length of each of the 256 event codes (the code byte itself
    /// not counted); codes the table does not list have length 0.
    pub event_sizes: Vec<u16>,
}

/// The table after its first `n` entries: each entry sets its code's length,
/// a later entry for the same code overriding an earlier one.
pub open spec fn table_after(s: Seq<u8>, off: int, n: int) -> Seq<u16>
    decreases n,
{
    if n <= 0 {
        Seq::new(256, |i: int| 0u16)
    } else {
        table_after(s, off, n - 1).update(s[off + 2 + 3 * (n - 1)] as int, be16_at(s, off + 3 + 3 * (n - 1)) as u16)
    }
}

pub open spec fn info_size(s: Seq<u8>, off: int) -> int {
    s[off + 1] as int
}

pub open spec fn event_sizes_ok(s: Seq<u8>, off: int) -> bool {
    &&& off + 2 <= s.len()
    &&& s[off] == EVENT_PAYLOADS
    &&& info_size(s, off) >= 1
    &&& off + info_size(s, off) + 1 <= s.len()
}

pub open spec fn event_table(s: Seq<u8>, off: int) -> Seq<u16> {
    table_after(s, off, (info_size(s, off) - 1) / 3)
}

pub(crate) proof fn lemma_table_len(s: Seq<u8>, off: int, n: int)
    ensures
        table_after(s, off, n).len() == 256,
    decreases n,
{
    if n > 0 {
        lemma_table_len(s, off, n - 1);
    }
}

/// Decodes the event-size table at `event_sizes_offset`: a marker byte, an
/// info size, then `(info_size - 1) / 3` entries of a code byte and a
/// big-endian length.  The game-start record follows the table.
pub fn event_sizes(slp: &[u8], event_sizes_offset: usize) -> (r: Result<EventSizesRet, SlpError>)
    ensures
        r is Ok <==> event_sizes_ok(slp@, event_sizes_offset as int),
        match r {
            Ok(t) => {
                &&& t.game_start_offset == event_sizes_offset + info_size(slp@, event_sizes_offset as int) + 1
                &&& t.event_sizes@ == event_table(slp@, event_sizes_offset as int)
            },
            Err(e) => e == SlpError::InvalidFile(InvalidLocation::EventSizes),
        },
{
    let off = event_sizes_offset;
    if slp.len() < 2 || off > slp.len() - 2 {
        return Err(SlpError::InvalidFile(InvalidLocation::EventSizes));
    }
    if slp[off] != EVENT_PAYLOADS {
        return Err(SlpError::InvalidFile(InvalidLocation::EventSizes));
    }
    let info = slp[off + 1] as usize;
    if info < 1 || info > slp.len() - off - 1 {
        return Err(SlpError::InvalidFile(InvalidLocation::EventSizes));
    }
    let count = (info - 1) / 3;
    let mut table: Vec<u16> = vec![0u16; 256];
    assert(table@ =~= table_after(slp@, off as int, 0));
    let mut i: usize = 0;
    while i < count
        invariant
            off + info + 1 <= slp@.len(),
            slp@.len() <= usize::MAX,
            info == info_size(slp@, off as int),
            count == (info - 1) / 3,
            i <= count,
            table@ == table_after(slp@, off as int, i as int),
        decreases count - i,
    {
        proof {
            lemma_table_len(slp@, off as int, i as int);
            assert(3 * i + 3 <= info - 1) by (nonlinear_arith)
                requires
                    i < count,
                    count == (info - 1) / 3,
                    info >= 1,
            ;
        }
        let at = off + 2 + i * 3;
        let code = slp[at];
        let size = be_u16_at(slp, at + 1);
        table.set(code as usize, size);
        i += 1;
    }
    Ok(EventSizesRet { game_start_offset: off + info + 1, event_sizes: table })
}

pub open spec fn metadata_offset(s: Seq<u8>) -> int {
    HEADER_LEN + be32_at(s, 11)
}

pub open spec fn game_start_offset(s: Seq<u8>) -> int {
    HEADER_LEN + info_size(s, HEADER_LEN as int) + 1
}

pub open spec fn game_start_size(s: Seq<u8>) -> int {
    event_table(s, HEADER_LEN as int)[GAME_START as int] + 1
}

/// Bytes that an item-update record must hold to be decoded.
pub const ITEM_UPDATE_MIN_LEN: usize = 0x2C;

/// State of one item for one frame.  Float fields hold bit patterns.
#[derive(Clone, Copy, Debug, PartialEq, Eq, Structural)]
pub struct ItemUpdate {
    pub frame_idx: u32,
    pub type_id: u16,
    pub state: u8,
    pub direction: Direction,
    pub position: Vector,
    pub spawn_id: u32,
    pub missile_type: u8,
    pub turnip_type: u8,
    pub charge_shot_launched: bool,
    pub charge_shot_power: u8,
    pub owner: i8,
}

pub open spec fn item_update_at(s: Seq<u8>, at: int) -> ItemUpdate {
    ItemUpdate {
        frame_idx: ((be_i32_at(s, at + 0x1) + FRAME_INDEX_OFFSET) % 0x1_0000_0000) as u32,
        type_id: be16_at(s, at + 0x5) as u16,
        state: s[at + 0x7],
        direction: if be32_at(s, at + 0x8) == FLOAT_ONE_BITS {
            Direction::Right
        } else {
            Direction::Left
        },
        position: vector_at(s, at + 0x14),
        spawn_id: be32_at(s, at + 0x22) as u32,
        missile_type: s[at + 0x26],
        turnip_type: s[at + 0x27],
        charge_shot_launched: s[at + 0x28] != 0,
        charge_shot_power: s[at + 0x29],
        owner: s[at + 0x2A] as i8,
    }
}

/// Decodes an item-update record.  The frame index is the record's counter
/// plus the offset, wrapped to 32 bits.  Fails when the record is too short
/// or does not start with the item-update code.
pub fn parse_item_update(item_update: &[u8]) -> (r: Result<ItemUpdate, SlpError>)
    ensures
        r is Ok <==> (item_update@.len() >= ITEM_UPDATE_MIN_LEN && item_update@[0] == ITEM_UPDATE),
        match r {
            Ok(u) => u == item_update_at(item_update@, 0),
            Err(e) => e == SlpError::InvalidFile(InvalidLocation::ItemUpdate),
        },
{
    let b = item_update;
    if b.len() < ITEM_UPDATE_MIN_LEN || b[0] != ITEM_UPDATE {
        return Err(SlpError::InvalidFile(InvalidLocation::ItemUpdate));
    }
    let raw = be_u32_at(b, 0x1);
    let frame_idx = raw.wrapping_add(FRAME_INDEX_OFFSET);
    let direction = if be_u32_at(b, 0x8) == FLOAT_ONE_BITS {
        Direction::Right
    } else {
        Direction::Left
    };
    Ok(ItemUpdate {
        frame_idx,
        type_id: be_u16_at(b, 0x5),
        state: b[0x7],
        direction,
        position: read_vector(b, 0x14),
        spawn_id: be_u32_at(b, 0x22),
        missile_type: b[0x26],
        turnip_type: b[0x27],
        charge_shot_launched: b[0x28] != 0,
        charge_shot_power: b[0x29],
        owner: b[0x2A] as i8,
    })
}

} // verus!
