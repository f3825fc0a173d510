//! The event-stream state machine that reconstructs every active slot's
//! frames, and the assembly of the final match.

use vstd::prelude::*;

use crate::catalog::CodeCatalog;
use crate::wire::{
    FRAME_BOOKEND, FRAME_INDEX_OFFSET, GAME_END, GAME_START, InvalidLocation, POST_FRAME_UPDATE,
    PRE_FRAME_UPDATE, SlpError, be_i32_at, be_u32_at,
};
use crate::container::{
    HEADER_LEN, event_sizes, event_sizes_ok, event_table, game_start_offset, game_start_size,
    info_size, lemma_table_len, metadata_offset, parse_raw_header, raw_header_ok,
};
use crate::frames::{
    lemma_growth, lemma_rollback_state, merge, null_frame, slot_of, state_wf, Frame, FrameReconstructor, PostFrameUpdate, PreFrameUpdate, ReconState, SLOT_COUNT, committed,
    initial_state, parse_post_at, parse_pre_at, post_at, post_ok, pre_at, pre_ok, with_post,
    with_pre,
};
use crate::game_start::{
    bytes_view, zeros, NAME_LEN, CONNECT_CODE_LEN,
    CharacterColour, GameStart, game_start_spec, game_start_view, parse_game_start_at,
};

verus! {

/// Bytes that a bookend record must hold to be decoded.
pub const BOOKEND_MIN_LEN: usize = 5;

/// Frame index of the bookend record at `at`: its signed counter plus the
/// offset.
pub open spec fn frame_index(s: Seq<u8>, at: int) -> int {
    be_i32_at(s, at + 1) + FRAME_INDEX_OFFSET
}

pub open spec fn bookend_ok(s: Seq<u8>, at: int, size: int) -> bool {
    size >= BOOKEND_MIN_LEN && frame_index(s, at) >= 0
}

/// The effect of the event record of `size` bytes at `at`.  An update whose
/// port and follower flag address no slot fails.
pub open spec fn step(cat: CodeCatalog, s: Seq<u8>, at: int, size: int, st: ReconState) -> Result<ReconState, SlpError> {
    let cmd = s[at];
    if cmd == PRE_FRAME_UPDATE {
        if pre_ok(s, at, size) && slot_of(pre_at(s, at).port_idx, pre_at(s, at).is_follower) < SLOT_COUNT {
            Ok(with_pre(st, pre_at(s, at)))
        } else {
            Err(SlpError::InvalidFile(InvalidLocation::PreFrameUpdate))
        }
    } else if cmd == POST_FRAME_UPDATE {
        if post_ok(cat, s, at, size) && slot_of(post_at(s, at).port_idx, post_at(s, at).is_follower)
            < SLOT_COUNT {
            Ok(with_post(st, post_at(s, at)))
        } else {
            Err(SlpError::InvalidFile(InvalidLocation::PostFrameUpdate))
        }
    } else if cmd == FRAME_BOOKEND {
        if bookend_ok(s, at, size) {
            Ok(committed(st, frame_index(s, at)))
        } else {
            Err(SlpError::InvalidFile(InvalidLocation::FrameBookend))
        }
    } else {
        Ok(st)
    }
}

/// Length of the event record at `cursor`: its code byte and its payload.
pub open spec fn event_size(s: Seq<u8>, table: Seq<u16>, cursor: int) -> int {
    let code = s[cursor] as int;
    if 0 <= code < table.len() {
        table[code] + 1
    } else {
        1
    }
}

/// Runs the event records from `cursor` up to `end`, each record's length
/// taken from `table` by its code byte; a game-end record stops the scan.
pub open spec fn scan(cat: CodeCatalog, s: Seq<u8>, table: Seq<u16>, cursor: int, end: int, st: ReconState) -> Result<
    ReconState,
    SlpError,
>
    decreases s.len() - cursor,
{
    let size = event_size(s, table, cursor);
    if cursor >= end {
        Ok(st)
    } else if cursor < 0 || cursor >= s.len() || cursor + size > s.len() {
        Err(SlpError::InvalidFile(InvalidLocation::EventStream))
    } else if s[cursor] == GAME_END {
        Ok(st)
    } else {
        match step(cat, s, cursor, size, st) {
            Ok(next) => scan(cat, s, table, cursor + size, end, next),
            Err(e) => Err(e),
        }
    }
}

/// Reads the bookend record at `at` and returns its frame index.
fn bookend_index(b: &[u8], at: usize, size: usize) -> (r: Result<usize, SlpError>)
    requires
        at + size <= b@.len(),
    ensures
        r is Ok <==> bookend_ok(b@, at as int, size as int),
        match r {
            Ok(k) => k == frame_index(b@, at as int) && k < usize::MAX,
            Err(e) => e == SlpError::InvalidFile(InvalidLocation::FrameBookend),
        },
{
    let _len = b.len();
    if size < BOOKEND_MIN_LEN {
        return Err(SlpError::InvalidFile(InvalidLocation::FrameBookend));
    }
    let raw = be_u32_at(b, at + 1);
    if raw < 0x8000_0000 {
        Ok(raw as usize + FRAME_INDEX_OFFSET as usize)
    } else if raw >= 0xFFFF_FF85 {
        Ok((raw - 0xFFFF_FF85) as usize)
    } else {
        Err(SlpError::InvalidFile(InvalidLocation::FrameBookend))
    }
}

/// A bookend record at `at` writes, in every active slot, the merge of that
/// slot's latest updates at the record's frame index.  When the index lies
/// at or beyond every sequence's end, each sequence grows to index + 1, keeps
/// its frames, and holds null frames in between.
pub proof fn lemma_bookend_growth(cat: CodeCatalog, s: Seq<u8>, at: int, size: int, st: ReconState)
    requires
        state_wf(st),
        s[at] == FRAME_BOOKEND,
        bookend_ok(s, at, size),
        forall|i: int| 0 <= i < st.outputs.len() ==> (#[trigger] st.outputs[i]).1.len() <= frame_index(s, at),
    ensures
        step(cat, s, at, size, st) is Ok,
        ({
            let k = frame_index(s, at);
            let next = step(cat, s, at, size, st)->Ok_0;
            &&& next.outputs.len() == st.outputs.len()
            &&& forall|i: int| 0 <= i < st.outputs.len() ==> {
                let old_frames = #[trigger] st.outputs[i].1;
                let new_frames = next.outputs[i].1;
                let slot = st.outputs[i].0 as int;
                &&& new_frames.len() == k + 1
                &&& forall|j: int| 0 <= j < old_frames.len() ==> new_frames[j] == old_frames[j]
                &&& forall|j: int| old_frames.len() <= j < k ==> new_frames[j] == null_frame()
                &&& new_frames[k] == merge(st.pre[slot], st.post[slot])
            }
        }),
{
    let k = frame_index(s, at);
    assert forall|i: int| 0 <= i < st.outputs.len() implies {
        let old_frames = #[trigger] st.outputs[i].1;
        let new_frames = step(cat, s, at, size, st)->Ok_0.outputs[i].1;
        let slot = st.outputs[i].0 as int;
        &&& new_frames.len() == k + 1
        &&& forall|j: int| 0 <= j < old_frames.len() ==> new_frames[j] == old_frames[j]
        &&& forall|j: int| old_frames.len() <= j < k ==> new_frames[j] == null_frame()
        &&& new_frames[k] == merge(st.pre[slot], st.post[slot])
    } by {
        let slot = st.outputs[i].0 as int;
        lemma_growth(st.outputs[i].1, k, merge(st.pre[slot], st.post[slot]));
    }
}

/// In an event stream, a bookend followed by a pre-update, a post-update and
/// a second bookend with the same frame index leaves no trace of the first
/// bookend: the scan continues exactly as if only the updates and the second
/// bookend had been read.
pub proof fn lemma_rollback_stream(
    cat: CodeCatalog,
    s: Seq<u8>,
    table: Seq<u16>,
    c1: int,
    end: int,
    st: ReconState,
)
    requires
        state_wf(st),
        0 <= c1,
        ({
            let c2 = c1 + event_size(s, table, c1);
            let c3 = c2 + event_size(s, table, c2);
            let c4 = c3 + event_size(s, table, c3);
            &&& c4 < end
            &&& c4 + event_size(s, table, c4) <= s.len()
            &&& s[c1] == FRAME_BOOKEND
            &&& bookend_ok(s, c1, event_size(s, table, c1))
            &&& s[c2] == PRE_FRAME_UPDATE
            &&& pre_ok(s, c2, event_size(s, table, c2))
            &&& slot_of(pre_at(s, c2).port_idx, pre_at(s, c2).is_follower) < SLOT_COUNT
            &&& s[c3] == POST_FRAME_UPDATE
            &&& post_ok(cat, s, c3, event_size(s, table, c3))
            &&& slot_of(post_at(s, c3).port_idx, post_at(s, c3).is_follower) < SLOT_COUNT
            &&& s[c4] == FRAME_BOOKEND
            &&& bookend_ok(s, c4, event_size(s, table, c4))
            &&& frame_index(s, c4) == frame_index(s, c1)
        }),
    ensures
        ({
            let c2 = c1 + event_size(s, table, c1);
            let c3 = c2 + event_size(s, table, c2);
            let c4 = c3 + event_size(s, table, c3);
            let k = frame_index(s, c1);
            scan(cat, s, table, c1, end, st) == scan(
                cat,
                s,
                table,
                c4 + event_size(s, table, c4),
                end,
                committed(with_post(with_pre(st, pre_at(s, c2)), post_at(s, c3)), k),
            )
        }),
{
    let c2 = c1 + event_size(s, table, c1);
    let c3 = c2 + event_size(s, table, c2);
    let c4 = c3 + event_size(s, table, c3);
    let k = frame_index(s, c1);
    let st1 = committed(st, k);
    let st2 = with_pre(st1, pre_at(s, c2));
    let st3 = with_post(st2, post_at(s, c3));
    assert(scan(cat, s, table, c1, end, st) == scan(cat, s, table, c2, end, st1));
    assert(scan(cat, s, table, c2, end, st1) == scan(cat, s, table, c3, end, st2));
    assert(scan(cat, s, table, c3, end, st2) == scan(cat, s, table, c4, end, st3));
    assert(scan(cat, s, table, c4, end, st3) == scan(cat, s, table, c4 + event_size(s, table, c4), end, committed(st3, k)));
    lemma_rollback_state(st, pre_at(s, c2), post_at(s, c3), k);
}

fn slot_in_range(port_idx: u8, is_follower: bool) -> (r: bool)
    ensures
        r == (slot_of(port_idx, is_follower) < SLOT_COUNT),
{
    if is_follower {
        (port_idx as usize) < SLOT_COUNT - 4
    } else {
        (port_idx as usize) < SLOT_COUNT
    }
}

/// Applies the event record of `size` bytes at `at` to the state.
fn apply_event(
    recon: &mut FrameReconstructor,
    b: &[u8],
    at: usize,
    size: usize,
    cat: &CodeCatalog,
) -> (r: Result<(), SlpError>)
    requires
        old(recon).wf(),
        at + size <= b@.len(),
        size >= 1,
    ensures
        final(recon).wf(),
        match step(*cat, b@, at as int, size as int, old(recon).model()) {
            Ok(next) => r is Ok && final(recon).model() == next,
            Err(e) => r == Err::<(), SlpError>(e),
        },
{
    let cmd = b[at];
    if cmd == PRE_FRAME_UPDATE {
        let p = parse_pre_at(b, at, size)?;
        if !slot_in_range(p.port_idx, p.is_follower) {
            return Err(SlpError::InvalidFile(InvalidLocation::PreFrameUpdate));
        }
        recon.apply_pre(p);
    } else if cmd == POST_FRAME_UPDATE {
        let p = parse_post_at(b, at, size, cat)?;
        if !slot_in_range(p.port_idx, p.is_follower) {
            return Err(SlpError::InvalidFile(InvalidLocation::PostFrameUpdate));
        }
        recon.apply_post(p);
    } else if cmd == FRAME_BOOKEND {
        let k = bookend_index(b, at, size)?;
        recon.commit(k);
    }
    Ok(())
}

/// Match metadata drawn from the game start.
pub struct GameInfo {
    pub stage: u16,
    pub port_used: Vec<bool>,
    pub starting_character_colours: Vec<Option<CharacterColour>>,
    pub timer: u32,
    pub names: Vec<Vec<u8>>,
    pub connect_codes: Vec<Vec<u8>>,
}

/// A reconstructed match: per-port and per-follower frame sequences, the
/// frame count (length of the first populated port's sequence) and metadata.
pub struct Game {
    pub frame_count: usize,
    pub frames: Vec<Option<Vec<Frame>>>,
    pub follower_frames: Vec<Option<Vec<Frame>>>,
    pub info: GameInfo,
}

pub open spec fn opt_frames(o: Option<Vec<Frame>>) -> Option<Seq<Frame>> {
    match o {
        Some(v) => Some(v@),
        None => None,
    }
}

/// Active slots of a match, in port order: each occupied port, followed by
/// its follower slot when its character brings one.
pub open spec fn active_slots(cat: CodeCatalog, ports: Seq<Option<CharacterColour>>, n: int) -> Seq<usize>
    decreases n,
{
    if n <= 0 {
        Seq::empty()
    } else {
        let prev = active_slots(cat, ports, n - 1);
        match ports[n - 1] {
            None => prev,
            Some(cc) => if cat.has_follower_spec(cc.character) {
                prev.push((n - 1) as usize).push((n + 3) as usize)
            } else {
                prev.push((n - 1) as usize)
            },
        }
    }
}

/// The frames of the first output from index `i` on that belongs to `slot`.
pub open spec fn first_slot(outs: Seq<(usize, Seq<Frame>)>, slot: int, i: int) -> Option<Seq<Frame>>
    decreases outs.len() - i,
{
    if i < 0 || i >= outs.len() {
        None
    } else if outs[i].0 == slot {
        Some(outs[i].1)
    } else {
        first_slot(outs, slot, i + 1)
    }
}

/// Length of the first populated port sequence from port `p` on.
pub open spec fn frame_count_of(outs: Seq<(usize, Seq<Frame>)>, p: int) -> Option<nat>
    decreases 4 - p,
{
    if p >= 4 || p < 0 {
        None
    } else {
        match first_slot(outs, p, 0) {
            Some(f) => Some(f.len()),
            None => frame_count_of(outs, p + 1),
        }
    }
}

/// The game start and the final reconstruction state of a container, or the
/// error that stops its parse.
pub open spec fn reconstruct(cat: CodeCatalog, s: Seq<u8>) -> Result<
    ((u16, u32, Seq<Option<CharacterColour>>), ReconState),
    SlpError,
> {
    if !raw_header_ok(s) {
        Err(SlpError::NotAnSlpFile)
    } else if !event_sizes_ok(s, HEADER_LEN as int) {
        Err(SlpError::InvalidFile(InvalidLocation::EventSizes))
    } else if game_start_offset(s) + game_start_size(s) > s.len() {
        Err(SlpError::InvalidFile(InvalidLocation::GameStart))
    } else {
        match game_start_spec(cat, s, game_start_offset(s), game_start_size(s)) {
            Err(e) => Err(e),
            Ok(g) => match scan(
                cat,
                s,
                event_table(s, HEADER_LEN as int),
                game_start_offset(s) + game_start_size(s),
                metadata_offset(s),
                initial_state(active_slots(cat, g.2, 4)),
            ) {
                Err(e) => Err(e),
                Ok(st) => Ok((g, st)),
            },
        }
    }
}

pub open spec fn info_matches(info: GameInfo, g: (u16, u32, Seq<Option<CharacterColour>>)) -> bool {
    &&& info.stage == g.0
    &&& info.timer == g.1
    &&& info.starting_character_colours@ == g.2
    &&& info.port_used@ == Seq::new(g.2.len(), |i: int| g.2[i] is Some)
}

/// Names and connect codes all zero: the layout this parser reads has none.
pub open spec fn info_tags_blank(info: GameInfo) -> bool {
    &&& bytes_view(info.names@) == Seq::new(4, |i: int| zeros(NAME_LEN as nat))
    &&& bytes_view(info.connect_codes@) == Seq::new(4, |i: int| zeros(CONNECT_CODE_LEN as nat))
}

pub open spec fn game_matches(game: Game, g: (u16, u32, Seq<Option<CharacterColour>>), st: ReconState) -> bool {
    &&& info_matches(game.info, g)
    &&& info_tags_blank(game.info)
    &&& game.frames@.len() == 4
    &&& game.follower_frames@.len() == 4
    &&& forall|p: int| 0 <= p < 4 ==> opt_frames(#[trigger] game.frames@[p]) == first_slot(st.outputs, p, 0)
    &&& forall|p: int| 0 <= p < 4 ==> opt_frames(#[trigger] game.follower_frames@[p]) == first_slot(st.outputs, p + 4, 0)
    &&& frame_count_of(st.outputs, 0) == Some(game.frame_count as nat)
}

/// Indices of the set entries among the first `n` of `used`, in order.
pub open spec fn used_ports(used: Seq<bool>, n: int) -> Seq<usize>
    decreases n,
{
    if n <= 0 {
        Seq::empty()
    } else if used[n - 1] {
        used_ports(used, n - 1).push((n - 1) as usize)
    } else {
        used_ports(used, n - 1)
    }
}

impl GameInfo {
    /// The two occupied ports of a two-player match, lowest first; `None`
    /// when the match does not have exactly two.
    pub fn low_high_ports(&self) -> (r: Option<(usize, usize)>)
        ensures
            ({
                let used = used_ports(self.port_used@, self.port_used@.len() as int);
                r == if used.len() == 2 {
                    Some((used[0], used[1]))
                } else {
                    None::<(usize, usize)>
                }
            }),
    {
        let mut used: Vec<usize> = Vec::new();
        let mut i: usize = 0;
        while i < self.port_used.len()
            invariant
                i <= self.port_used@.len(),
                used@ == used_ports(self.port_used@, i as int),
            decreases self.port_used@.len() - i,
        {
            if self.port_used[i] {
                used.push(i);
            }
            i += 1;
        }
        if used.len() == 2 {
            Some((used[0], used[1]))
        } else {
            None
        }
    }
}

/// Builds the match metadata from a game start.
pub fn merge_metadata(game_start: GameStart) -> (r: GameInfo)
    ensures
        info_matches(r, game_start_view(game_start)),
        r.names@ == game_start.names@,
        r.connect_codes@ == game_start.connect_codes@,
{
    let ghost ports = game_start.starting_character_colours@;
    let mut port_used: Vec<bool> = Vec::new();
    let mut i: usize = 0;
    while i < game_start.starting_character_colours.len()
        invariant
            ports == game_start.starting_character_colours@,
            i <= ports.len(),
            port_used@ == Seq::new(i as nat, |j: int| ports[j] is Some),
        decreases ports.len() - i,
    {
        port_used.push(game_start.starting_character_colours[i].is_some());
        i += 1;
        assert(port_used@ =~= Seq::new(i as nat, |j: int| ports[j] is Some));
    }
    GameInfo {
        stage: game_start.stage,
        port_used,
        starting_character_colours: game_start.starting_character_colours,
        timer: game_start.timer,
        names: game_start.names,
        connect_codes: game_start.connect_codes,
    }
}

fn slots_for(ports: &Vec<Option<CharacterColour>>, cat: &CodeCatalog) -> (r: Vec<usize>)
    requires
        ports@.len() == 4,
    ensures
        r@ == active_slots(*cat, ports@, 4),
        forall|i: int| 0 <= i < r@.len() ==> r@[i] < SLOT_COUNT,
{
    let mut slots: Vec<usize> = Vec::new();
    let mut i: usize = 0;
    while i < 4
        invariant
            ports@.len() == 4,
            i <= 4,
            slots@ == active_slots(*cat, ports@, i as int),
            forall|k: int| 0 <= k < slots@.len() ==> slots@[k] < i + 4,
        decreases 4 - i,
    {
        match ports[i] {
            None => {},
            Some(cc) => {
                slots.push(i);
                if cat.has_follower(cc.character) {
                    slots.push(i + 4);
                }
            },
        }
        i += 1;
    }
    slots
}

/// Splits the output sequences into port and follower sequences and finds
/// the frame count.  Fails when no port sequence is populated.
fn assemble(recon: FrameReconstructor, info: GameInfo, g: Ghost<(u16, u32, Seq<Option<CharacterColour>>)>) -> (r: Result<Game, SlpError>)
    requires
        recon.wf(),
        info_matches(info, g@),
        info_tags_blank(info),
    ensures
        r is Ok <==> frame_count_of(recon.model().outputs, 0) is Some,
        match r {
            Ok(game) => game_matches(game, g@, recon.model()),
            Err(e) => e == SlpError::InvalidFile(InvalidLocation::GameStart),
        },
{
    let ghost outs = recon.model().outputs;
    let mut outputs = recon.outputs;
    let mut frames: Vec<Option<Vec<Frame>>> = Vec::new();
    let mut follower_frames: Vec<Option<Vec<Frame>>> = Vec::new();
    let mut i: usize = 0;
    while i < 4
        invariant
            i <= 4,
            frames@.len() == i,
            follower_frames@.len() == i,
            forall|p: int| 0 <= p < i ==> frames@[p] is None && follower_frames@[p] is None,
        decreases 4 - i,
    {
        frames.push(None);
        follower_frames.push(None);
        i += 1;
    }
    while outputs.len() > 0
        invariant
            outputs@.len() <= outs.len(),
            outs == recon.model().outputs,
            forall|j: int| 0 <= j < outputs@.len() ==> (#[trigger] outputs@[j]).slot == outs[j].0 && outputs@[j].frames@ == outs[j].1,
            forall|j: int| 0 <= j < outs.len() ==> (#[trigger] outs[j]).0 < SLOT_COUNT,
            frames@.len() == 4,
            follower_frames@.len() == 4,
            forall|p: int| 0 <= p < 4 ==> opt_frames(#[trigger] frames@[p]) == first_slot(outs, p, outputs@.len() as int),
            forall|p: int| 0 <= p < 4 ==> opt_frames(#[trigger] follower_frames@[p]) == first_slot(outs, p + 4, outputs@.len() as int),
        decreases outputs@.len(),
    {
        let ghost k = outputs@.len() - 1;
        let o = outputs.pop().unwrap();
        assert(o.slot == outs[k].0 && o.frames@ == outs[k].1);
        if o.slot < 4 {
            frames.set(o.slot, Some(o.frames));
        } else {
            follower_frames.set(o.slot - 4, Some(o.frames));
        }
        assert forall|p: int| 0 <= p < 4 implies opt_frames(#[trigger] frames@[p]) == first_slot(outs, p, k) by {
            assert(first_slot(outs, p, k) == if outs[k].0 == p { Some(outs[k].1) } else { first_slot(outs, p, k + 1) });
        }
        assert forall|p: int| 0 <= p < 4 implies opt_frames(#[trigger] follower_frames@[p]) == first_slot(outs, p + 4, k) by {
            assert(first_slot(outs, p + 4, k) == if outs[k].0 == p + 4 { Some(outs[k].1) } else { first_slot(outs, p + 4, k + 1) });
        }
    }
    let mut p: usize = 0;
    while p < 4
        invariant
            p <= 4,
            frames@.len() == 4,
            follower_frames@.len() == 4,
            info_matches(info, g@),
            info_tags_blank(info),
            outs == recon.model().outputs,
            forall|q: int| 0 <= q < 4 ==> opt_frames(#[trigger] follower_frames@[q]) == first_slot(outs, q + 4, 0),
            forall|q: int| 0 <= q < 4 ==> opt_frames(#[trigger] frames@[q]) == first_slot(outs, q, 0),
            frame_count_of(outs, 0) == frame_count_of(outs, p as int),
        decreases 4 - p,
    {
        if let Some(v) = &frames[p] {
            let frame_count = v.len();
            assert(opt_frames(frames@[p as int]) == first_slot(outs, p as int, 0));
            let game = Game { frame_count, frames, follower_frames, info };
            return Ok(game);
        }
        assert(opt_frames(frames@[p as int]) == first_slot(outs, p as int, 0));
        p += 1;
    }
    Err(SlpError::InvalidFile(InvalidLocation::GameStart))
}

/// Parses an uncompressed container: header, event-size table and game
/// start, then the event stream up to the metadata (or a game-end record),
/// reconstructing each active slot's frames.  A later bookend for an index
/// already written replaces that frame.
pub fn parse_old_file(slp: &[u8], cat: &CodeCatalog) -> (r: Result<Game, SlpError>)
    requires
        cat.wf(),
    ensures
        r is Ok <==> (reconstruct(*cat, slp@) is Ok && frame_count_of(reconstruct(*cat, slp@)->Ok_0.1.outputs, 0) is Some),
        match r {
            Ok(game) => game_matches(game, reconstruct(*cat, slp@)->Ok_0.0, reconstruct(*cat, slp@)->Ok_0.1),
            Err(e) => reconstruct(*cat, slp@) == Err::<((u16, u32, Seq<Option<CharacterColour>>), ReconState), SlpError>(e)
                || (reconstruct(*cat, slp@) is Ok && e == SlpError::InvalidFile(InvalidLocation::GameStart)),
        },
{
    let raw = parse_raw_header(slp)?;
    let sizes = event_sizes(slp, raw.event_sizes_offset)?;
    let ghost s = slp@;
    let ghost table = sizes.event_sizes@;
    proof {
        lemma_table_len(s, HEADER_LEN as int, (info_size(s, HEADER_LEN as int) - 1) / 3);
    }
    let gs_offset = sizes.game_start_offset;
    let gs_size = sizes.event_sizes[GAME_START as usize] as usize + 1;
    if gs_size > slp.len() || gs_offset > slp.len() - gs_size {
        return Err(SlpError::InvalidFile(InvalidLocation::GameStart));
    }
    let game_start = parse_game_start_at(slp, gs_offset, gs_size, cat)?;
    let ghost g = game_start_view(game_start);
    let slots = slots_for(&game_start.starting_character_colours, cat);
    let mut recon = FrameReconstructor::new(&slots);
    let end = raw.metadata_offset;
    let mut cursor = gs_offset + gs_size;
    let ghost total = scan(*cat, s, table, cursor as int, end as int, recon.model());
    assert(reconstruct(*cat, s) == match total {
        Err(e) => Err(e),
        Ok(st) => Ok((g, st)),
    });
    let mut done = false;
    while cursor < end && !done
        invariant
            s == slp@,
            table == sizes.event_sizes@,
            table.len() == 256,
            cursor <= s.len(),
            recon.wf(),
            total == if done {
                Ok::<ReconState, SlpError>(recon.model())
            } else {
                scan(*cat, s, table, cursor as int, end as int, recon.model())
            },
            reconstruct(*cat, s) == match total {
                Err(e) => Err(e),
                Ok(st) => Ok((g, st)),
            },
        decreases s.len() - cursor, if done { 0int } else { 1int },
    {
        if cursor >= slp.len() {
            return Err(SlpError::InvalidFile(InvalidLocation::EventStream));
        }
        let code = slp[cursor];
        let size = sizes.event_sizes[code as usize] as usize + 1;
        assert(size == event_size(s, table, cursor as int));
        if size > slp.len() - cursor {
            return Err(SlpError::InvalidFile(InvalidLocation::EventStream));
        }
        if code == GAME_END {
            done = true;
        } else {
            apply_event(&mut recon, slp, cursor, size, cat)?;
            cursor += size;
        }
    }
    let ghost st = recon.model();
    assert(total == Ok::<ReconState, SlpError>(st));
    let info = merge_metadata(game_start);
    assemble(recon, info, Ghost(g))
}

} // verus!
