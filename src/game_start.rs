//! Game-start records in the legacy and current layouts, metadata-only
//! reads, and the check that selects replays for the dataset.

use vstd::prelude::*;

use crate::catalog::CodeCatalog;
use crate::wire::{GAME_START, InvalidLocation, SlpError, be16_at, be32_at, be_u16_at, be_u32_at};
use crate::container::{
    HEADER_LEN, MAX_SUPPORTED_SLPZ_VERSION, SLPZ_HEADER_LEN, event_sizes, event_sizes_ok,
    event_table, game_start_offset, game_start_size, info_size, lemma_table_len, parse_raw_header,
    raw_header_ok,
};

verus! {

/// Oldest game-start version (major, minor) that is read.
pub const MIN_VERSION_MAJOR: u8 = 1;
pub const MIN_VERSION_MINOR: u8 = 0;

/// Bytes that a game-start record must hold for its stage and timer.
pub const GAME_START_MIN_LEN: usize = 0x19;

/// Sentinel of a port's type byte that marks the port as empty.
pub const EMPTY_PORT: u8 = 3;

/// A character (internal code) and one of its colours.
#[derive(Clone, Copy, Debug, PartialEq, Eq, Structural)]
pub struct CharacterColour {
    pub character: u8,
    pub colour: u8,
}

#[derive(Clone, Debug)]
pub struct GameStart {
    pub stage: u16,
    /// One entry per port; `None` for an empty port.
    pub starting_character_colours: Vec<Option<CharacterColour>>,
    pub timer: u32,
    /// Each port's name bytes (`NAME_LEN` of them), zero where not read.
    pub names: Vec<Vec<u8>>,
    /// Each port's connect-code bytes (`CONNECT_CODE_LEN` of them), zero
    /// where not read.
    pub connect_codes: Vec<Vec<u8>>,
}

pub const NAME_LEN: usize = 31;
pub const CONNECT_CODE_LEN: usize = 10;

pub open spec fn zeros(n: nat) -> Seq<u8> {
    Seq::new(n, |j: int| 0u8)
}

pub open spec fn bytes_view(v: Seq<Vec<u8>>) -> Seq<Seq<u8>> {
    Seq::new(v.len(), |i: int| v[i]@)
}

/// Names and connect codes all zero, as the legacy layout leaves them.
pub open spec fn tags_blank(g: GameStart) -> bool {
    &&& bytes_view(g.names@) == Seq::new(4, |i: int| zeros(NAME_LEN as nat))
    &&& bytes_view(g.connect_codes@) == Seq::new(4, |i: int| zeros(CONNECT_CODE_LEN as nat))
}

fn zero_bytes(n: usize) -> (r: Vec<u8>)
    ensures
        r@ == zeros(n as nat),
{
    let mut v: Vec<u8> = Vec::new();
    let mut i: usize = 0;
    while i < n
        invariant
            i <= n,
            v@ == zeros(i as nat),
        decreases n - i,
    {
        v.push(0u8);
        i += 1;
        assert(v@ =~= zeros(i as nat));
    }
    v
}

fn blank_tags(len: usize) -> (r: Vec<Vec<u8>>)
    ensures
        bytes_view(r@) == Seq::new(4, |i: int| zeros(len as nat)),
{
    let mut v: Vec<Vec<u8>> = Vec::new();
    let mut i: usize = 0;
    while i < 4
        invariant
            i <= 4,
            v@.len() == i,
            forall|j: int| 0 <= j < i ==> (#[trigger] v@[j])@ == zeros(len as nat),
        decreases 4 - i,
    {
        v.push(zero_bytes(len));
        i += 1;
    }
    assert(bytes_view(v@) =~= Seq::new(4, |i: int| zeros(len as nat)));
    v
}

/// The decoded content of a game start: stage, timer and the four ports.
pub open spec fn game_start_view(g: GameStart) -> (u16, u32, Seq<Option<CharacterColour>>) {
    (g.stage, g.timer, g.starting_character_colours@)
}

/// Offset of port `i`'s block inside the game-start record at `at`.
pub open spec fn port_base(at: int, i: int) -> int {
    at + 5 + 0x24 * i
}

/// Port `i` of the game-start record of `size` bytes at `at`: `None` when
/// its type byte is the empty sentinel, else the character and colour, which
/// must be known.  A port whose bytes lie past the record fails.
pub open spec fn port_spec(cat: CodeCatalog, s: Seq<u8>, at: int, size: int, i: int) -> Result<Option<CharacterColour>, ()> {
    let base = port_base(at, i);
    if size < port_base(0, i) + 0x62 {
        Err(())
    } else if s[base + 0x61] == EMPTY_PORT {
        Ok(None)
    } else if size < port_base(0, i) + 0x64 {
        Err(())
    } else {
        match cat.external_spec(s[base + 0x60]) {
            None => Err(()),
            Some(c) => if cat.colour_known(c, s[base + 0x63]) {
                Ok(Some(CharacterColour { character: c, colour: s[base + 0x63] }))
            } else {
                Err(())
            },
        }
    }
}

pub open spec fn outdated(s: Seq<u8>, at: int) -> bool {
    s[at + 1] < MIN_VERSION_MAJOR || (s[at + 1] == MIN_VERSION_MAJOR && s[at + 2] < MIN_VERSION_MINOR)
}

pub open spec fn game_start_spec(cat: CodeCatalog, s: Seq<u8>, at: int, size: int) -> Result<
    (u16, u32, Seq<Option<CharacterColour>>),
    SlpError,
> {
    if size < 5 || s[at] != GAME_START {
        Err(SlpError::InvalidFile(InvalidLocation::GameStart))
    } else if outdated(s, at) {
        Err(SlpError::OutdatedFile)
    } else if size < GAME_START_MIN_LEN || !cat.stage_known(be16_at(s, at + 5 + 0xE) as u16) || exists|i: int|
        0 <= i < 4 && (#[trigger] port_spec(cat, s, at, size, i)) is Err {
        Err(SlpError::InvalidFile(InvalidLocation::GameStart))
    } else {
        Ok(
            (
                be16_at(s, at + 5 + 0xE) as u16,
                be32_at(s, at + 5 + 0x10) as u32,
                Seq::new(4, |i: int| port_spec(cat, s, at, size, i)->Ok_0),
            ),
        )
    }
}

pub(crate) fn parse_game_start_at(b: &[u8], at: usize, size: usize, cat: &CodeCatalog) -> (r: Result<GameStart, SlpError>)
    requires
        at + size <= b@.len(),
        cat.wf(),
    ensures
        match r {
            Ok(g) => game_start_spec(*cat, b@, at as int, size as int) == Ok::<_, SlpError>(game_start_view(g)) && tags_blank(g),
            Err(e) => game_start_spec(*cat, b@, at as int, size as int) == Err::<(u16, u32, Seq<Option<CharacterColour>>), _>(e),
        },
{
    let _len = b.len();
    if size < 5 || b[at] != GAME_START {
        return Err(SlpError::InvalidFile(InvalidLocation::GameStart));
    }
    let major = b[at + 1];
    let minor = b[at + 2];
    if major < MIN_VERSION_MAJOR || (major == MIN_VERSION_MAJOR && minor < MIN_VERSION_MINOR) {
        return Err(SlpError::OutdatedFile);
    }
    if size < GAME_START_MIN_LEN {
        return Err(SlpError::InvalidFile(InvalidLocation::GameStart));
    }
    let stage = be_u16_at(b, at + 5 + 0xE);
    if !cat.is_stage(stage) {
        return Err(SlpError::InvalidFile(InvalidLocation::GameStart));
    }
    let timer = be_u32_at(b, at + 5 + 0x10);
    let mut ports: Vec<Option<CharacterColour>> = Vec::new();
    let mut i: usize = 0;
    while i < 4
        invariant
            at + GAME_START_MIN_LEN <= b@.len(),
            b@.len() <= usize::MAX,
            cat.wf(),
            size >= GAME_START_MIN_LEN,
            at + size <= b@.len(),
            b@[at as int] == GAME_START,
            !outdated(b@, at as int),
            cat.stage_known(be16_at(b@, at + 5 + 0xE) as u16),
            i <= 4,
            ports@.len() == i,
            forall|j: int| 0 <= j < i ==> (#[trigger] port_spec(*cat, b@, at as int, size as int, j)) is Ok,
            forall|j: int| 0 <= j < i ==> ports@[j] == port_spec(*cat, b@, at as int, size as int, j)->Ok_0,
        decreases 4 - i,
    {
        if size < 5 + 0x24 * i + 0x62 {
            assert(port_spec(*cat, b@, at as int, size as int, i as int) is Err);
            return Err(SlpError::InvalidFile(InvalidLocation::GameStart));
        }
        let base = at + 5 + 0x24 * i;
        if b[base + 0x61] == EMPTY_PORT {
            ports.push(None);
        } else {
            if size < 5 + 0x24 * i + 0x64 {
                assert(port_spec(*cat, b@, at as int, size as int, i as int) is Err);
                return Err(SlpError::InvalidFile(InvalidLocation::GameStart));
            }
            let character = match cat.from_external(b[base + 0x60]) {
                Some(c) => c,
                None => {
                    assert(port_spec(*cat, b@, at as int, size as int, i as int) is Err);
                    return Err(SlpError::InvalidFile(InvalidLocation::GameStart));
                },
            };
            let colour = b[base + 0x63];
            if !cat.is_colour(character, colour) {
                assert(port_spec(*cat, b@, at as int, size as int, i as int) is Err);
                return Err(SlpError::InvalidFile(InvalidLocation::GameStart));
            }
            ports.push(Some(CharacterColour { character, colour }));
        }
        i += 1;
    }
    let g = GameStart {
        stage,
        starting_character_colours: ports,
        timer,
        names: blank_tags(NAME_LEN),
        connect_codes: blank_tags(CONNECT_CODE_LEN),
    };
    assert(g.starting_character_colours@ =~= Seq::new(4, |i: int| port_spec(*cat, b@, at as int, size as int, i)->Ok_0));
    Ok(g)
}

/// Decodes a game-start record: checks its code byte and version, then
/// reads the stage, the timer and each port's character and colour.  Empty
/// ports are skipped; an unknown stage, character or colour fails.
pub fn parse_game_start(game_start: &[u8], cat: &CodeCatalog) -> (r: Result<GameStart, SlpError>)
    requires
        cat.wf(),
    ensures
        match r {
            Ok(g) => game_start_spec(*cat, game_start@, 0, game_start@.len() as int) == Ok::<_, SlpError>(game_start_view(g)) && tags_blank(g),
            Err(e) => game_start_spec(*cat, game_start@, 0, game_start@.len() as int) == Err::<(u16, u32, Seq<Option<CharacterColour>>), _>(e),
        },
{
    parse_game_start_at(game_start, 0, game_start.len(), cat)
}

/// The game start of a container, read through its header and event-size
/// table only.
pub open spec fn file_info_spec(cat: CodeCatalog, s: Seq<u8>) -> Result<(u16, u32, Seq<Option<CharacterColour>>), SlpError> {
    if !raw_header_ok(s) {
        Err(SlpError::NotAnSlpFile)
    } else if !event_sizes_ok(s, HEADER_LEN as int) {
        Err(SlpError::InvalidFile(InvalidLocation::EventSizes))
    } else if game_start_offset(s) + game_start_size(s) > s.len() {
        Err(SlpError::InvalidFile(InvalidLocation::GameStart))
    } else {
        game_start_spec(cat, s, game_start_offset(s), game_start_size(s))
    }
}

/// Reads the game start from the leading bytes of a container, without
/// touching the event stream.
pub fn parse_file_info(buf: &[u8], cat: &CodeCatalog) -> (r: Result<GameStart, SlpError>)
    requires
        cat.wf(),
    ensures
        match r {
            Ok(g) => file_info_spec(*cat, buf@) == Ok::<_, SlpError>(game_start_view(g)) && tags_blank(g),
            Err(e) => file_info_spec(*cat, buf@) == Err::<(u16, u32, Seq<Option<CharacterColour>>), _>(e),
        },
{
    let raw = parse_raw_header(buf)?;
    let sizes = event_sizes(buf, raw.event_sizes_offset)?;
    proof {
        lemma_table_len(buf@, HEADER_LEN as int, (info_size(buf@, HEADER_LEN as int) - 1) / 3);
    }
    let gs_offset = sizes.game_start_offset;
    let gs_size = sizes.event_sizes[GAME_START as usize] as usize + 1;
    if gs_size > buf.len() || gs_offset > buf.len() - gs_size {
        return Err(SlpError::InvalidFile(InvalidLocation::GameStart));
    }
    parse_game_start_at(buf, gs_offset, gs_size, cat)
}

/// The game start of a compressed container: its fixed header gives the
/// format version and the offsets of the event-size table and game start,
/// which are stored uncompressed.
pub open spec fn file_info_slpz_spec(cat: CodeCatalog, s: Seq<u8>) -> Result<
    (u16, u32, Seq<Option<CharacterColour>>),
    SlpError,
> {
    if s.len() < SLPZ_HEADER_LEN {
        Err(SlpError::NotAnSlpFile)
    } else if be32_at(s, 0) > MAX_SUPPORTED_SLPZ_VERSION {
        Err(SlpError::TooNewFile)
    } else if !event_sizes_ok(s, be32_at(s, 4)) {
        Err(SlpError::InvalidFile(InvalidLocation::EventSizes))
    } else {
        let gs_offset = be32_at(s, 8);
        let gs_size = event_table(s, be32_at(s, 4))[GAME_START as int] + 1;
        if gs_offset + gs_size > s.len() {
            Err(SlpError::InvalidFile(InvalidLocation::GameStart))
        } else {
            game_start_spec(cat, s, gs_offset, gs_size)
        }
    }
}

/// Reads the game start from the leading bytes of a compressed container,
/// without decompressing anything.
pub fn parse_file_info_slpz(buf: &[u8], cat: &CodeCatalog) -> (r: Result<GameStart, SlpError>)
    requires
        cat.wf(),
    ensures
        match r {
            Ok(g) => file_info_slpz_spec(*cat, buf@) == Ok::<_, SlpError>(game_start_view(g)) && tags_blank(g),
            Err(e) => file_info_slpz_spec(*cat, buf@) == Err::<(u16, u32, Seq<Option<CharacterColour>>), _>(e),
        },
{
    if buf.len() < SLPZ_HEADER_LEN {
        return Err(SlpError::NotAnSlpFile);
    }
    let version = be_u32_at(buf, 0);
    if version > MAX_SUPPORTED_SLPZ_VERSION {
        return Err(SlpError::TooNewFile);
    }
    let event_sizes_offset = be_u32_at(buf, 4) as usize;
    let gs_offset = be_u32_at(buf, 8) as usize;
    let sizes = event_sizes(buf, event_sizes_offset)?;
    proof {
        lemma_table_len(buf@, event_sizes_offset as int, (info_size(buf@, event_sizes_offset as int) - 1) / 3);
    }
    let gs_size = sizes.event_sizes[GAME_START as usize] as usize + 1;
    if gs_size > buf.len() || gs_offset > buf.len() - gs_size {
        return Err(SlpError::InvalidFile(InvalidLocation::GameStart));
    }
    parse_game_start_at(buf, gs_offset, gs_size, cat)
}

/// Major version of the game-start layout that carries names and codes.
pub const CURRENT_VERSION_MAJOR: u8 = 3;

/// Offset of port 0's name inside a current-layout game-start record.
pub const NAME_OFFSET: usize = 0x1A5;

/// Offset of port 0's connect code inside a current-layout game-start record.
pub const CONNECT_CODE_OFFSET: usize = 0x221;

pub open spec fn name_start(i: int) -> int {
    NAME_OFFSET + NAME_LEN * i
}

pub open spec fn code_start(i: int) -> int {
    CONNECT_CODE_OFFSET + CONNECT_CODE_LEN * i
}

/// Port `i` of a current-layout record: its character and colour, name and
/// connect code.  An empty port keeps zero bytes; an occupied port whose
/// name or code lies beyond the record fails with an I/O error.
pub open spec fn actual_port(cat: CodeCatalog, s: Seq<u8>, i: int) -> Result<
    (Option<CharacterColour>, Seq<u8>, Seq<u8>),
    SlpError,
> {
    match port_spec(cat, s, 0, s.len() as int, i) {
        Err(_) => Err(SlpError::InvalidFile(InvalidLocation::GameStart)),
        Ok(None) => Ok((None, zeros(NAME_LEN as nat), zeros(CONNECT_CODE_LEN as nat))),
        Ok(Some(cc)) => if s.len() < name_start(i) + NAME_LEN || s.len() < code_start(i)
            + CONNECT_CODE_LEN {
            Err(SlpError::IOError)
        } else {
            Ok(
                (
                    Some(cc),
                    s.subrange(name_start(i), name_start(i) + NAME_LEN),
                    s.subrange(code_start(i), code_start(i) + CONNECT_CODE_LEN),
                ),
            )
        },
    }
}

/// The first `n` ports, decoded in order; the first failing port decides
/// the error.
pub open spec fn actual_ports(cat: CodeCatalog, s: Seq<u8>, n: int) -> Result<
    Seq<(Option<CharacterColour>, Seq<u8>, Seq<u8>)>,
    SlpError,
>
    decreases n,
{
    if n <= 0 {
        Ok(Seq::empty())
    } else {
        match actual_ports(cat, s, n - 1) {
            Err(e) => Err(e),
            Ok(prev) => match actual_port(cat, s, n - 1) {
                Err(e) => Err(e),
                Ok(p) => Ok(prev.push(p)),
            },
        }
    }
}

/// Stage, timer, ports, names and connect codes of a current-layout record.
pub open spec fn game_start_actual_spec(cat: CodeCatalog, s: Seq<u8>) -> Result<
    (u16, u32, Seq<Option<CharacterColour>>, Seq<Seq<u8>>, Seq<Seq<u8>>),
    SlpError,
> {
    if s.len() < GAME_START_MIN_LEN || s[0] != GAME_START || s[1] != CURRENT_VERSION_MAJOR
        || !cat.stage_known(be16_at(s, 0x13int) as u16) {
        Err(SlpError::InvalidFile(InvalidLocation::GameStart))
    } else {
        match actual_ports(cat, s, 4) {
            Err(e) => Err(e),
            Ok(ps) => Ok(
                (
                    be16_at(s, 0x13int) as u16,
                    be32_at(s, 0x15int) as u32,
                    Seq::new(4, |i: int| ps[i].0),
                    Seq::new(4, |i: int| ps[i].1),
                    Seq::new(4, |i: int| ps[i].2),
                ),
            ),
        }
    }
}

pub open spec fn game_start_full_view(g: GameStart) -> (u16, u32, Seq<Option<CharacterColour>>, Seq<Seq<u8>>, Seq<Seq<u8>>) {
    (g.stage, g.timer, g.starting_character_colours@, bytes_view(g.names@), bytes_view(g.connect_codes@))
}

fn copy_bytes(b: &[u8], start: usize, len: usize) -> (r: Vec<u8>)
    requires
        start + len <= b@.len(),
    ensures
        r@ == b@.subrange(start as int, start + len),
{
    let _n = b.len();
    let mut v: Vec<u8> = Vec::new();
    let mut i: usize = 0;
    while i < len
        invariant
            start + len <= b@.len(),
            b@.len() <= usize::MAX,
            i <= len,
            v@ == b@.subrange(start as int, start + i),
        decreases len - i,
    {
        v.push(b[start + i]);
        i += 1;
        assert(v@ =~= b@.subrange(start as int, start + i));
    }
    v
}

proof fn lemma_actual_ports_len(cat: CodeCatalog, s: Seq<u8>, n: int)
    requires
        0 <= n,
        actual_ports(cat, s, n) is Ok,
    ensures
        actual_ports(cat, s, n)->Ok_0.len() == n,
    decreases n,
{
    if n > 0 {
        lemma_actual_ports_len(cat, s, n - 1);
    }
}

proof fn lemma_actual_ports_err(cat: CodeCatalog, s: Seq<u8>, n: int, m: int)
    requires
        0 <= n <= m,
        actual_ports(cat, s, n) is Err,
    ensures
        actual_ports(cat, s, m) == actual_ports(cat, s, n),
    decreases m - n,
{
    if n < m {
        lemma_actual_ports_err(cat, s, n, m - 1);
    }
}

/// Decodes a game-start record in the current layout (major version 3),
/// including each occupied port's name and connect code.
pub fn parse_game_start_actual(game_start: &[u8], cat: &CodeCatalog) -> (r: Result<GameStart, SlpError>)
    requires
        cat.wf(),
    ensures
        match r {
            Ok(g) => game_start_actual_spec(*cat, game_start@) == Ok::<_, SlpError>(game_start_full_view(g)),
            Err(e) => game_start_actual_spec(*cat, game_start@) == Err::<
                (u16, u32, Seq<Option<CharacterColour>>, Seq<Seq<u8>>, Seq<Seq<u8>>),
                _,
            >(e),
        },
{
    let b = game_start;
    let ghost s = b@;
    if b.len() < GAME_START_MIN_LEN || b[0] != GAME_START || b[1] != CURRENT_VERSION_MAJOR {
        return Err(SlpError::InvalidFile(InvalidLocation::GameStart));
    }
    let stage = be_u16_at(b, 5 + 0xE);
    if !cat.is_stage(stage) {
        return Err(SlpError::InvalidFile(InvalidLocation::GameStart));
    }
    let timer = be_u32_at(b, 5 + 0x10);
    let mut ports: Vec<Option<CharacterColour>> = Vec::new();
    let mut names: Vec<Vec<u8>> = Vec::new();
    let mut codes: Vec<Vec<u8>> = Vec::new();
    let mut i: usize = 0;
    while i < 4
        invariant
            s == b@,
            s == game_start@,
            b@.len() >= GAME_START_MIN_LEN,
            b@.len() <= usize::MAX,
            cat.wf(),
            s[0] == GAME_START,
            s[1] == CURRENT_VERSION_MAJOR,
            cat.stage_known(be16_at(s, 0x13int) as u16),
            i <= 4,
            actual_ports(*cat, s, i as int) is Ok,
            ports@.len() == i,
            names@.len() == i,
            codes@.len() == i,
            forall|j: int| 0 <= j < i ==> (#[trigger] ports@[j]) == actual_ports(*cat, s, i as int)->Ok_0[j].0,
            forall|j: int| 0 <= j < i ==> (#[trigger] names@[j])@ == actual_ports(*cat, s, i as int)->Ok_0[j].1,
            forall|j: int| 0 <= j < i ==> (#[trigger] codes@[j])@ == actual_ports(*cat, s, i as int)->Ok_0[j].2,
        decreases 4 - i,
    {
        proof {
            lemma_actual_ports_len(*cat, s, i as int);
        }
        let base = 5 + 0x24 * i;
        if b.len() < base + 0x62 {
            proof {
                assert(port_base(0, i as int) == base);
                assert(actual_port(*cat, s, i as int) == Err::<(Option<CharacterColour>, Seq<u8>, Seq<u8>), SlpError>(
                    SlpError::InvalidFile(InvalidLocation::GameStart),
                ));
                lemma_actual_ports_err(*cat, s, i + 1, 4);
            }
            return Err(SlpError::InvalidFile(InvalidLocation::GameStart));
        }
        if b[base + 0x61] == EMPTY_PORT {
            ports.push(None);
            names.push(zero_bytes(NAME_LEN));
            codes.push(zero_bytes(CONNECT_CODE_LEN));
        } else {
            if b.len() < base + 0x64 {
                proof {
                    assert(port_base(0, i as int) == base);
                    assert(actual_port(*cat, s, i as int) == Err::<(Option<CharacterColour>, Seq<u8>, Seq<u8>), SlpError>(
                        SlpError::InvalidFile(InvalidLocation::GameStart),
                    ));
                    lemma_actual_ports_err(*cat, s, i + 1, 4);
                }
                return Err(SlpError::InvalidFile(InvalidLocation::GameStart));
            }
            let character = match cat.from_external(b[base + 0x60]) {
                Some(c) => c,
                None => {
                    proof {
                        assert(port_base(0, i as int) == base);
                        assert(port_spec(*cat, s, 0, s.len() as int, i as int) is Err);
                        assert(actual_port(*cat, s, i as int) == Err::<(Option<CharacterColour>, Seq<u8>, Seq<u8>), SlpError>(
                            SlpError::InvalidFile(InvalidLocation::GameStart),
                        ));
                        lemma_actual_ports_err(*cat, s, i + 1, 4);
                    }
                    return Err(SlpError::InvalidFile(InvalidLocation::GameStart));
                },
            };
            let colour = b[base + 0x63];
            if !cat.is_colour(character, colour) {
                proof {
                    lemma_actual_ports_err(*cat, s, i + 1, 4);
                }
                return Err(SlpError::InvalidFile(InvalidLocation::GameStart));
            }
            let name_at = NAME_OFFSET + NAME_LEN * i;
            let code_at = CONNECT_CODE_OFFSET + CONNECT_CODE_LEN * i;
            if b.len() < name_at + NAME_LEN || b.len() < code_at + CONNECT_CODE_LEN {
                proof {
                    assert(port_base(0, i as int) == base);
                    assert(port_spec(*cat, s, 0, s.len() as int, i as int) == Ok::<Option<CharacterColour>, ()>(
                        Some(CharacterColour { character, colour }),
                    ));
                    assert(actual_port(*cat, s, i as int) == Err::<(Option<CharacterColour>, Seq<u8>, Seq<u8>), SlpError>(
                        SlpError::IOError,
                    ));
                    lemma_actual_ports_err(*cat, s, i + 1, 4);
                }
                return Err(SlpError::IOError);
            }
            ports.push(Some(CharacterColour { character, colour }));
            names.push(copy_bytes(b, name_at, NAME_LEN));
            codes.push(copy_bytes(b, code_at, CONNECT_CODE_LEN));
        }
        i += 1;
    }
    let g = GameStart { stage, starting_character_colours: ports, timer, names, connect_codes: codes };
    proof {
        lemma_actual_ports_len(*cat, s, 4);
        let ps = actual_ports(*cat, s, 4)->Ok_0;
        assert(g.starting_character_colours@ =~= Seq::new(4, |i: int| ps[i].0));
        assert(bytes_view(g.names@) =~= Seq::new(4, |i: int| ps[i].1));
        assert(bytes_view(g.connect_codes@) =~= Seq::new(4, |i: int| ps[i].2));
    }
    Ok(g)
}

/// Port type byte of a human-controlled player.
pub const HUMAN_PORT: u8 = 0;

/// External code of the one character the dataset collects.
pub const DATASET_CHARACTER: u8 = 2;

pub open spec fn port_type(s: Seq<u8>, gs: int, i: int) -> u8 {
    s[port_base(gs, i) + 0x61]
}

pub open spec fn port_character(s: Seq<u8>, gs: int, i: int) -> u8 {
    s[port_base(gs, i) + 0x60]
}

/// Number of human ports among the first `n`.
pub open spec fn human_ports(s: Seq<u8>, gs: int, n: int) -> int
    decreases n,
{
    if n <= 0 {
        0
    } else {
        human_ports(s, gs, n - 1) + if port_type(s, gs, n - 1) == HUMAN_PORT {
            1int
        } else {
            0int
        }
    }
}

/// Bytes from the start of a game-start record through the last port's
/// type byte.
pub const PORT_BYTES_END: usize = 0xD3;

/// A container is selected when its header, event table and game start are
/// readable, the four port type bytes lie in the buffer, every port is empty
/// or human, exactly two are human, and both of those play the dataset's
/// character.
pub open spec fn selected(s: Seq<u8>) -> bool {
    &&& raw_header_ok(s)
    &&& event_sizes_ok(s, HEADER_LEN as int)
    &&& game_start_offset(s) + game_start_size(s) <= s.len()
    &&& game_start_offset(s) + PORT_BYTES_END <= s.len()
    &&& forall|i: int| 0 <= i < 4 ==> {
        let t = #[trigger] port_type(s, game_start_offset(s), i);
        (t == EMPTY_PORT || t == HUMAN_PORT) && (t == HUMAN_PORT ==> port_character(s, game_start_offset(s), i)
            == DATASET_CHARACTER)
    }
    &&& human_ports(s, game_start_offset(s), 4) == 2
}

/// Tells whether a container is a two-player human match in which both
/// players use the dataset's character.
pub fn check_game_start(buf: &[u8]) -> (r: bool)
    ensures
        r == selected(buf@),
{
    let header = match parse_raw_header(buf) {
        Ok(h) => h,
        Err(_) => return false,
    };
    let sizes = match event_sizes(buf, header.event_sizes_offset) {
        Ok(t) => t,
        Err(_) => return false,
    };
    proof {
        lemma_table_len(buf@, HEADER_LEN as int, (info_size(buf@, HEADER_LEN as int) - 1) / 3);
    }
    let gs = sizes.game_start_offset;
    let gs_size = sizes.event_sizes[GAME_START as usize] as usize + 1;
    if gs_size > buf.len() || gs > buf.len() - gs_size {
        return false;
    }
    if buf.len() < PORT_BYTES_END || gs > buf.len() - PORT_BYTES_END {
        return false;
    }
    let ghost s = buf@;
    let mut count: usize = 0;
    let mut i: usize = 0;
    while i < 4
        invariant
            s == buf@,
            gs == game_start_offset(s),
            gs + PORT_BYTES_END <= s.len(),
            raw_header_ok(s),
            event_sizes_ok(s, HEADER_LEN as int),
            game_start_offset(s) + game_start_size(s) <= s.len(),
            i <= 4,
            count == human_ports(s, gs as int, i as int),
            count <= i,
            forall|j: int| 0 <= j < i ==> {
                let t = #[trigger] port_type(s, gs as int, j);
                (t == EMPTY_PORT || t == HUMAN_PORT) && (t == HUMAN_PORT ==> port_character(s, gs as int, j)
                    == DATASET_CHARACTER)
            },
        decreases 4 - i,
    {
        let t = buf[gs + 5 + 0x24 * i + 0x61];
        assert(t == port_type(s, gs as int, i as int));
        if t != EMPTY_PORT {
            if t != HUMAN_PORT {
                return false;
            }
            count += 1;
            if buf[gs + 5 + 0x24 * i + 0x60] != DATASET_CHARACTER {
                assert(port_character(s, gs as int, i as int) != DATASET_CHARACTER);
                return false;
            }
        }
        i += 1;
    }
    count == 2
}

} // verus!
