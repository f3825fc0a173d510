//! Pre- and post-update records, committed frames, and the per-slot frame
//! store that bookend events write with rollback-tolerant overwrites.

use vstd::prelude::*;

use crate::catalog::CodeCatalog;
use crate::wire::{
    Direction, FLOAT_ONE_BITS, InvalidLocation, SlpError, Vector, be16_at, be32_at, be_u16_at,
    be_u32_at, byte_at, null_vector, read_vector, vector_at,
};

verus! {

/// Number of slots: four ports, then each port's follower.
pub const SLOT_COUNT: usize = 8;

/// Bytes that a pre-update record must hold to be decoded.
pub const PRE_UPDATE_MIN_LEN: usize = 0x33;

/// Bytes that a post-update record must hold to be decoded.
pub const POST_UPDATE_MIN_LEN: usize = 0x26;

/// Controller input of one slot for one frame.  Float fields hold bit
/// patterns.
#[derive(Clone, Copy, Debug, PartialEq, Eq, Structural)]
pub struct PreFrameUpdate {
    pub port_idx: u8,
    pub is_follower: bool,
    pub buttons_mask: u16,
    pub analog_trigger_value: u32,
    pub left_stick_coords: Vector,
    pub right_stick_coords: Vector,
}

/// Resolved state of one slot for one frame.  Float fields hold bit
/// patterns; `character` is an internal character code.
#[derive(Clone, Copy, Debug, PartialEq, Eq, Structural)]
pub struct PostFrameUpdate {
    pub port_idx: u8,
    pub is_follower: bool,
    pub character: u8,
    pub direction: Direction,
    pub position: Vector,
    pub state: u16,
    pub anim_frame: u32,
    pub shield_size: u32,
    pub stock_count: u8,
    pub percent: u32,
    pub last_hitting_attack_id: u8,
}

/// A committed frame of one slot: its latest input merged with its latest
/// resolved state.
#[derive(Clone, Copy, Debug, PartialEq, Eq, Structural)]
pub struct Frame {
    pub character: u8,
    pub port_idx: u8,
    pub is_follower: bool,
    pub direction: Direction,
    pub position: Vector,
    pub state: u16,
    pub anim_frame: u32,
    pub shield_size: u32,
    pub buttons_mask: u16,
    pub analog_trigger_value: u32,
    pub left_stick_coords: Vector,
    pub right_stick_coords: Vector,
    pub stock_count: u8,
    pub percent: u32,
    pub last_hitting_attack_id: u8,
}

pub open spec fn null_pre() -> PreFrameUpdate {
    PreFrameUpdate {
        port_idx: 0,
        is_follower: false,
        buttons_mask: 0,
        analog_trigger_value: 0,
        left_stick_coords: null_vector(),
        right_stick_coords: null_vector(),
    }
}

pub open spec fn null_post() -> PostFrameUpdate {
    PostFrameUpdate {
        port_idx: 0,
        is_follower: false,
        character: 0,
        direction: Direction::Left,
        position: null_vector(),
        state: 0,
        anim_frame: 0,
        shield_size: 0,
        stock_count: 0,
        percent: 0,
        last_hitting_attack_id: 0,
    }
}

pub open spec fn merge(pre: PreFrameUpdate, post: PostFrameUpdate) -> Frame {
    Frame {
        character: post.character,
        port_idx: post.port_idx,
        is_follower: post.is_follower,
        direction: post.direction,
        position: post.position,
        state: post.state,
        anim_frame: post.anim_frame,
        shield_size: post.shield_size,
        buttons_mask: pre.buttons_mask,
        analog_trigger_value: pre.analog_trigger_value,
        left_stick_coords: pre.left_stick_coords,
        right_stick_coords: pre.right_stick_coords,
        stock_count: post.stock_count,
        percent: post.percent,
        last_hitting_attack_id: post.last_hitting_attack_id,
    }
}

/// The placeholder stored at frame indices that no bookend has written.
pub open spec fn null_frame() -> Frame {
    merge(null_pre(), null_post())
}

impl PreFrameUpdate {
    pub fn null() -> (r: PreFrameUpdate)
        ensures
            r == null_pre(),
    {
        PreFrameUpdate {
            port_idx: 0,
            is_follower: false,
            buttons_mask: 0,
            analog_trigger_value: 0,
            left_stick_coords: Vector::null(),
            right_stick_coords: Vector::null(),
        }
    }
}

impl PostFrameUpdate {
    pub fn null() -> (r: PostFrameUpdate)
        ensures
            r == null_post(),
    {
        PostFrameUpdate {
            port_idx: 0,
            is_follower: false,
            character: 0,
            direction: Direction::Left,
            position: Vector::null(),
            state: 0,
            anim_frame: 0,
            shield_size: 0,
            stock_count: 0,
            percent: 0,
            last_hitting_attack_id: 0,
        }
    }
}

impl Frame {
    pub fn null() -> (r: Frame)
        ensures
            r == null_frame(),
    {
        merge_pre_post_frames(&PreFrameUpdate::null(), &PostFrameUpdate::null())
    }
}

/// Slot addressed by a record: its port, or the port's follower slot.
pub open spec fn slot_of(port_idx: u8, is_follower: bool) -> int {
    if is_follower {
        port_idx + 4
    } else {
        port_idx as int
    }
}

/// The pre-update record that starts at `at`.
pub open spec fn pre_at(s: Seq<u8>, at: int) -> PreFrameUpdate {
    PreFrameUpdate {
        port_idx: s[at + 0x5],
        is_follower: s[at + 0x6] != 0,
        buttons_mask: be16_at(s, at + 0x31) as u16,
        analog_trigger_value: be32_at(s, at + 0x29) as u32,
        left_stick_coords: vector_at(s, at + 0x19),
        right_stick_coords: vector_at(s, at + 0x21),
    }
}

pub open spec fn pre_ok(s: Seq<u8>, at: int, size: int) -> bool {
    size >= PRE_UPDATE_MIN_LEN
}

/// The post-update record that starts at `at`.
pub open spec fn post_at(s: Seq<u8>, at: int) -> PostFrameUpdate {
    PostFrameUpdate {
        port_idx: s[at + 0x5],
        is_follower: s[at + 0x6] != 0,
        character: s[at + 0x7],
        state: be16_at(s, at + 0x8) as u16,
        position: vector_at(s, at + 0xA),
        direction: if be32_at(s, at + 0x12) == FLOAT_ONE_BITS {
            Direction::Right
        } else {
            Direction::Left
        },
        percent: be32_at(s, at + 0x16) as u32,
        shield_size: be32_at(s, at + 0x1A) as u32,
        last_hitting_attack_id: s[at + 0x1E],
        stock_count: s[at + 0x21],
        anim_frame: be32_at(s, at + 0x22) as u32,
    }
}

pub open spec fn post_ok(cat: CodeCatalog, s: Seq<u8>, at: int, size: int) -> bool {
    &&& size >= POST_UPDATE_MIN_LEN
    &&& cat.character_known(s[at + 0x7])
    &&& cat.action_state_known(s[at + 0x7], be16_at(s, at + 0x8) as u16)
}

pub(crate) fn parse_pre_at(b: &[u8], at: usize, size: usize) -> (r: Result<PreFrameUpdate, SlpError>)
    requires
        at + size <= b@.len(),
    ensures
        r is Ok <==> pre_ok(b@, at as int, size as int),
        match r {
            Ok(p) => p == pre_at(b@, at as int),
            Err(e) => e == SlpError::InvalidFile(InvalidLocation::PreFrameUpdate),
        },
{
    let _len = b.len();
    if size < PRE_UPDATE_MIN_LEN {
        return Err(SlpError::InvalidFile(InvalidLocation::PreFrameUpdate));
    }
    let port_idx = byte_at(b, at + 0x5);
    Ok(PreFrameUpdate {
        port_idx,
        is_follower: byte_at(b, at + 0x6) != 0,
        buttons_mask: be_u16_at(b, at + 0x31),
        analog_trigger_value: be_u32_at(b, at + 0x29),
        left_stick_coords: read_vector(b, at + 0x19),
        right_stick_coords: read_vector(b, at + 0x21),
    })
}

pub(crate) fn parse_post_at(b: &[u8], at: usize, size: usize, cat: &CodeCatalog) -> (r: Result<PostFrameUpdate, SlpError>)
    requires
        at + size <= b@.len(),
    ensures
        r is Ok <==> post_ok(*cat, b@, at as int, size as int),
        match r {
            Ok(p) => p == post_at(b@, at as int),
            Err(e) => e == SlpError::InvalidFile(InvalidLocation::PostFrameUpdate),
        },
{
    let _len = b.len();
    if size < POST_UPDATE_MIN_LEN {
        return Err(SlpError::InvalidFile(InvalidLocation::PostFrameUpdate));
    }
    let port_idx = byte_at(b, at + 0x5);
    let character = byte_at(b, at + 0x7);
    if !cat.is_character(character) {
        return Err(SlpError::InvalidFile(InvalidLocation::PostFrameUpdate));
    }
    let state = be_u16_at(b, at + 0x8);
    if !cat.is_action_state(character, state) {
        return Err(SlpError::InvalidFile(InvalidLocation::PostFrameUpdate));
    }
    let direction = if be_u32_at(b, at + 0x12) == FLOAT_ONE_BITS {
        Direction::Right
    } else {
        Direction::Left
    };
    Ok(PostFrameUpdate {
        port_idx,
        is_follower: byte_at(b, at + 0x6) != 0,
        character,
        state,
        position: read_vector(b, at + 0xA),
        direction,
        percent: be_u32_at(b, at + 0x16),
        shield_size: be_u32_at(b, at + 0x1A),
        last_hitting_attack_id: byte_at(b, at + 0x1E),
        stock_count: byte_at(b, at + 0x21),
        anim_frame: be_u32_at(b, at + 0x22),
    })
}

/// Decodes a pre-update record: port, follower flag and controller input.
/// Fails only when the record is too short.
pub fn parse_pre_frame_update(pre_frame_update: &[u8]) -> (r: Result<PreFrameUpdate, SlpError>)
    ensures
        r is Ok <==> pre_ok(pre_frame_update@, 0, pre_frame_update@.len() as int),
        match r {
            Ok(p) => p == pre_at(pre_frame_update@, 0),
            Err(e) => e == SlpError::InvalidFile(InvalidLocation::PreFrameUpdate),
        },
{
    parse_pre_at(pre_frame_update, 0, pre_frame_update.len())
}

/// Decodes a post-update record: port, follower flag and resolved state.
/// Fails when the record is too short or holds a
/// character or an action state (for that character) the catalogue lacks.
pub fn parse_post_frame_update(post_frame_update: &[u8], cat: &CodeCatalog) -> (r: Result<PostFrameUpdate, SlpError>)
    ensures
        r is Ok <==> post_ok(*cat, post_frame_update@, 0, post_frame_update@.len() as int),
        match r {
            Ok(p) => p == post_at(post_frame_update@, 0),
            Err(e) => e == SlpError::InvalidFile(InvalidLocation::PostFrameUpdate),
        },
{
    parse_post_at(post_frame_update, 0, post_frame_update.len(), cat)
}

/// Merges a slot's latest input and latest resolved state into a frame.
pub fn merge_pre_post_frames(pre: &PreFrameUpdate, post: &PostFrameUpdate) -> (r: Frame)
    ensures
        r == merge(*pre, *post),
{
    Frame {
        character: post.character,
        port_idx: post.port_idx,
        is_follower: post.is_follower,
        direction: post.direction,
        position: post.position,
        state: post.state,
        anim_frame: post.anim_frame,
        shield_size: post.shield_size,
        buttons_mask: pre.buttons_mask,
        analog_trigger_value: pre.analog_trigger_value,
        left_stick_coords: pre.left_stick_coords,
        right_stick_coords: pre.right_stick_coords,
        stock_count: post.stock_count,
        percent: post.percent,
        last_hitting_attack_id: post.last_hitting_attack_id,
    }
}

/// `frames` with `f` written at index `k`: the sequence first grows to
/// `k + 1` with null frames if it is shorter, then index `k` is replaced.
pub open spec fn write_frame(frames: Seq<Frame>, k: int, f: Frame) -> Seq<Frame> {
    let grown = if k < frames.len() {
        frames
    } else {
        frames + Seq::new((k + 1 - frames.len()) as nat, |i: int| null_frame())
    };
    grown.update(k, f)
}

/// Writes `f` at index `k` of `frames`, growing it with null frames first
/// when `k` lies beyond its end.
pub fn write_frame_at(frames: &mut Vec<Frame>, k: usize, f: Frame)
    requires
        k < usize::MAX,
    ensures
        final(frames)@ == write_frame(old(frames)@, k as int, f),
{
    let ghost start = frames@;
    let null = Frame::null();
    while frames.len() <= k
        invariant
            k < usize::MAX,
            frames@.len() >= start.len(),
            frames@.len() <= k + 1 || frames@.len() == start.len(),
            frames@.subrange(0, start.len() as int) == start,
            forall|i: int| start.len() <= i < frames@.len() ==> frames@[i] == null_frame(),
            null == null_frame(),
        decreases k + 1 - frames@.len(),
    {
        frames.push(null);
    }
    frames.set(k, f);
    assert(final(frames)@ =~= write_frame(start, k as int, f));
}

/// A rollback that rewrites an index already written leaves one frame
/// there, the later one, and the length that the first write left.
pub proof fn lemma_rollback_last_write_wins(frames: Seq<Frame>, k: int, first: Frame, second: Frame)
    requires
        0 <= k,
    ensures
        write_frame(write_frame(frames, k, first), k, second) == write_frame(frames, k, second),
        write_frame(write_frame(frames, k, first), k, second).len() == write_frame(frames, k, first).len(),
        write_frame(write_frame(frames, k, first), k, second)[k] == second,
{
    assert(write_frame(write_frame(frames, k, first), k, second) =~= write_frame(frames, k, second));
}

/// Writing beyond the end grows the sequence to `k + 1`, keeps what was
/// there, and fills the gap `[len, k)` with null frames.
pub proof fn lemma_growth(frames: Seq<Frame>, k: int, f: Frame)
    requires
        frames.len() <= k,
    ensures
        write_frame(frames, k, f).len() == k + 1,
        forall|i: int| 0 <= i < frames.len() ==> write_frame(frames, k, f)[i] == frames[i],
        forall|i: int| frames.len() <= i < k ==> write_frame(frames, k, f)[i] == null_frame(),
        write_frame(frames, k, f)[k] == f,
{
}

/// A bookend that repeats frame index `k` after new updates leaves no trace
/// of the first bookend's frames: every active slot ends up as if only the
/// second bookend had written index `k`.
pub proof fn lemma_rollback_state(st: ReconState, pre: PreFrameUpdate, post: PostFrameUpdate, k: int)
    requires
        state_wf(st),
        slot_of(pre.port_idx, pre.is_follower) < SLOT_COUNT,
        slot_of(post.port_idx, post.is_follower) < SLOT_COUNT,
        0 <= k,
    ensures
        ({
            let mid = with_post(with_pre(committed(st, k), pre), post);
            let direct = with_post(with_pre(st, pre), post);
            committed(mid, k) == committed(direct, k)
        }),
{
    let mid = with_post(with_pre(committed(st, k), pre), post);
    let direct = with_post(with_pre(st, pre), post);
    assert forall|i: int| 0 <= i < st.outputs.len() implies #[trigger] committed(mid, k).outputs[i] == committed(direct, k).outputs[i] by {
        let slot = st.outputs[i].0 as int;
        lemma_rollback_last_write_wins(
            st.outputs[i].1,
            k,
            merge(st.pre[slot], st.post[slot]),
            merge(direct.pre[slot], direct.post[slot]),
        );
    }
    assert(committed(mid, k).outputs =~= committed(direct, k).outputs);
}

/// Writing inside the sequence keeps its length and changes only index `k`.
pub proof fn lemma_overwrite_in_place(frames: Seq<Frame>, k: int, f: Frame)
    requires
        0 <= k < frames.len(),
    ensures
        write_frame(frames, k, f) == frames.update(k, f),
{
}

/// One slot's committed frames, indexed by frame index.
pub struct FrameSequence {
    pub slot: usize,
    pub frames: Vec<Frame>,
}

/// The reconstruction state: each slot's latest pre- and post-update, and
/// the frame sequence of each active slot.
pub struct FrameReconstructor {
    pub pre: Vec<PreFrameUpdate>,
    pub post: Vec<PostFrameUpdate>,
    pub outputs: Vec<FrameSequence>,
}

/// Mathematical model of a `FrameReconstructor`.
pub struct ReconState {
    pub pre: Seq<PreFrameUpdate>,
    pub post: Seq<PostFrameUpdate>,
    pub outputs: Seq<(usize, Seq<Frame>)>,
}

pub open spec fn outputs_view(v: Seq<FrameSequence>) -> Seq<(usize, Seq<Frame>)> {
    Seq::new(v.len(), |i: int| (v[i].slot, v[i].frames@))
}

pub open spec fn initial_state(slots: Seq<usize>) -> ReconState {
    ReconState {
        pre: Seq::new(SLOT_COUNT as nat, |i: int| null_pre()),
        post: Seq::new(SLOT_COUNT as nat, |i: int| null_post()),
        outputs: Seq::new(slots.len(), |i: int| (slots[i], Seq::<Frame>::empty())),
    }
}

pub open spec fn with_pre(st: ReconState, p: PreFrameUpdate) -> ReconState {
    ReconState { pre: st.pre.update(slot_of(p.port_idx, p.is_follower), p), ..st }
}

pub open spec fn with_post(st: ReconState, p: PostFrameUpdate) -> ReconState {
    ReconState { post: st.post.update(slot_of(p.port_idx, p.is_follower), p), ..st }
}

/// Every active slot's current pre- and post-update merged and written at
/// frame index `k`.
pub open spec fn committed(st: ReconState, k: int) -> ReconState {
    ReconState {
        outputs: Seq::new(
            st.outputs.len(),
            |i: int|
                (
                    st.outputs[i].0,
                    write_frame(st.outputs[i].1, k, merge(st.pre[st.outputs[i].0 as int], st.post[st.outputs[i].0 as int])),
                ),
        ),
        ..st
    }
}

pub open spec fn state_wf(st: ReconState) -> bool {
    &&& st.pre.len() == SLOT_COUNT
    &&& st.post.len() == SLOT_COUNT
    &&& forall|i: int| 0 <= i < st.outputs.len() ==> (#[trigger] st.outputs[i]).0 < SLOT_COUNT
}

impl FrameReconstructor {
    pub open spec fn model(&self) -> ReconState {
        ReconState { pre: self.pre@, post: self.post@, outputs: outputs_view(self.outputs@) }
    }

    pub open spec fn wf(&self) -> bool {
        state_wf(self.model())
    }

    /// Starts with null updates in every slot and an empty sequence for each
    /// of `slots`, in that order.
    pub fn new(slots: &Vec<usize>) -> (r: FrameReconstructor)
        requires
            forall|i: int| 0 <= i < slots@.len() ==> slots@[i] < SLOT_COUNT,
        ensures
            r.wf(),
            r.model() == initial_state(slots@),
    {
        let mut pre: Vec<PreFrameUpdate> = Vec::new();
        let mut post: Vec<PostFrameUpdate> = Vec::new();
        let mut i: usize = 0;
        while i < SLOT_COUNT
            invariant
                i <= SLOT_COUNT,
                pre@.len() == i,
                post@.len() == i,
                forall|j: int| 0 <= j < i ==> pre@[j] == null_pre() && post@[j] == null_post(),
            decreases SLOT_COUNT - i,
        {
            pre.push(PreFrameUpdate::null());
            post.push(PostFrameUpdate::null());
            i += 1;
        }
        let mut outputs: Vec<FrameSequence> = Vec::new();
        let mut j: usize = 0;
        while j < slots.len()
            invariant
                j <= slots@.len(),
                outputs@.len() == j,
                forall|k: int| 0 <= k < j ==> outputs@[k].slot == slots@[k] && outputs@[k].frames@ == Seq::<Frame>::empty(),
            decreases slots@.len() - j,
        {
            outputs.push(FrameSequence { slot: slots[j], frames: Vec::with_capacity(1024) });
            j += 1;
        }
        let r = FrameReconstructor { pre, post, outputs };
        assert(r.model().pre =~= initial_state(slots@).pre);
        assert(r.model().post =~= initial_state(slots@).post);
        assert(r.model().outputs =~= initial_state(slots@).outputs);
        r
    }

    /// Replaces the latest pre-update of the slot the update addresses.
    pub fn apply_pre(&mut self, p: PreFrameUpdate)
        requires
            old(self).wf(),
            slot_of(p.port_idx, p.is_follower) < SLOT_COUNT,
        ensures
            final(self).wf(),
            final(self).model() == with_pre(old(self).model(), p),
    {
        let slot = if p.is_follower {
            p.port_idx as usize + 4
        } else {
            p.port_idx as usize
        };
        self.pre.set(slot, p);
        assert(self.model().outputs =~= with_pre(old(self).model(), p).outputs);
    }

    /// Replaces the latest post-update of the slot the update addresses.
    pub fn apply_post(&mut self, p: PostFrameUpdate)
        requires
            old(self).wf(),
            slot_of(p.port_idx, p.is_follower) < SLOT_COUNT,
        ensures
            final(self).wf(),
            final(self).model() == with_post(old(self).model(), p),
    {
        let slot = if p.is_follower {
            p.port_idx as usize + 4
        } else {
            p.port_idx as usize
        };
        self.post.set(slot, p);
        assert(self.model().outputs =~= with_post(old(self).model(), p).outputs);
    }

    /// Merges each active slot's latest updates and writes the frame at
    /// index `k`, overwriting what an earlier bookend wrote there.
    pub fn commit(&mut self, k: usize)
        requires
            old(self).wf(),
            k < usize::MAX,
        ensures
            final(self).wf(),
            final(self).model() == committed(old(self).model(), k as int),
    {
        let ghost st = self.model();
        let n = self.outputs.len();
        let mut i: usize = 0;
        while i < n
            invariant
                n == self.outputs@.len(),
                n == st.outputs.len(),
                k < usize::MAX,
                state_wf(st),
                i <= n,
                self.pre@ == st.pre,
                self.post@ == st.post,
                forall|j: int| 0 <= j < n ==> (#[trigger] self.outputs@[j]).slot == st.outputs[j].0,
                forall|j: int| 0 <= j < i ==> (#[trigger] self.outputs@[j]).frames@ == committed(st, k as int).outputs[j].1,
                forall|j: int| i <= j < n ==> (#[trigger] self.outputs@[j]).frames@ == st.outputs[j].1,
            decreases n - i,
        {
            let mut seq = self.outputs.remove(i);
            let slot = seq.slot;
            let f = merge_pre_post_frames(&self.pre[slot], &self.post[slot]);
            write_frame_at(&mut seq.frames, k, f);
            self.outputs.insert(i, seq);
            i += 1;
        }
        assert(self.model().outputs =~= committed(st, k as int).outputs);
    }
}

} // verus!
