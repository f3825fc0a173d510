use vstd::prelude::*;

use crate::catalog::CodeCatalog;

verus! {

/// The only database format version this codec reads and writes.
pub const VERSION: u32 = 0;

/// Bytes taken by an encoded `Header`.
pub const HEADER_SIZE: usize = 8;

/// Bytes taken by an encoded `Situation`.
pub const SITUATION_SIZE: usize = 12;

/// Bytes taken by an encoded `Row`.
pub const ROW_SIZE: usize = 28;

/// One player's state at a sampled instant.  Positions are the bit patterns
/// of single-precision floats; the codec moves them bit for bit.
#[derive(Clone, Copy, Debug, PartialEq, Eq, Structural)]
pub struct Situation {
    pub start_state: u16,
    pub action_taken: u16,
    pub pos_x: u32,
    pub pos_y: u32,
}

/// One interaction sample.  `score` is the bit pattern of a single-precision
/// float; larger favours the responding player.
#[derive(Clone, Copy, Debug, PartialEq, Eq, Structural)]
pub struct Row {
    pub player_response: Situation,
    pub opponent_initiation: Situation,
    pub score: u32,
}

/// The database header: format version and the internal codes of the
/// characters whose code spaces the rows use.
#[derive(Clone, Copy, Debug, PartialEq, Eq, Structural)]
pub struct Header {
    pub version: u32,
    pub player_character: u8,
    pub opponent_character: u8,
}

#[derive(Clone, Copy, Debug, PartialEq, Eq, Structural)]
pub enum DBError {
    InvalidFile,
    VersionTooNew,
}

pub open spec fn u16_le(x: u16) -> Seq<u8> {
    seq![(x % 256) as u8, (x / 256) as u8]
}

pub open spec fn u32_le(x: u32) -> Seq<u8> {
    seq![(x % 256) as u8, ((x / 256) % 256) as u8, ((x / 65536) % 256) as u8, (x / 16777216) as u8]
}

/// The little-endian 16-bit value at `i`.
pub open spec fn le16_at(s: Seq<u8>, i: int) -> int {
    s[i] + 256 * s[i + 1]
}

/// The little-endian 32-bit value at `i`.
pub open spec fn le32_at(s: Seq<u8>, i: int) -> int {
    s[i] + 256 * s[i + 1] + 65536 * s[i + 2] + 16777216 * s[i + 3]
}

pub open spec fn header_bytes(h: Header) -> Seq<u8> {
    u32_le(h.version) + seq![h.player_character, h.opponent_character, 0u8, 0u8]
}

pub open spec fn situation_bytes(s: Situation) -> Seq<u8> {
    u16_le(s.start_state) + u16_le(s.action_taken) + u32_le(s.pos_x) + u32_le(s.pos_y)
}

/// Rows store the opponent's initiation first, then the player's response,
/// then the score.
pub open spec fn row_bytes(r: Row) -> Seq<u8> {
    situation_bytes(r.opponent_initiation) + situation_bytes(r.player_response) + u32_le(r.score)
}

pub open spec fn header_of(s: Seq<u8>) -> Header {
    Header {
        version: le32_at(s, 0) as u32,
        player_character: s[4],
        opponent_character: s[5],
    }
}

pub open spec fn situation_at(s: Seq<u8>, i: int) -> Situation {
    Situation {
        start_state: le16_at(s, i) as u16,
        action_taken: le16_at(s, i + 2) as u16,
        pos_x: le32_at(s, i + 4) as u32,
        pos_y: le32_at(s, i + 8) as u32,
    }
}

pub open spec fn row_at(s: Seq<u8>, i: int) -> Row {
    Row {
        opponent_initiation: situation_at(s, i),
        player_response: situation_at(s, i + 12),
        score: le32_at(s, i + 24) as u32,
    }
}

pub open spec fn header_known(cat: CodeCatalog, h: Header) -> bool {
    cat.character_known(h.player_character) && cat.character_known(h.opponent_character)
}

pub open spec fn situation_known(cat: CodeCatalog, character: u8, s: Situation) -> bool {
    cat.broad_state_known(character, s.start_state) && cat.action_known(character, s.action_taken)
}

/// Each situation's codes are valid for the character the header gives it.
pub open spec fn row_known(cat: CodeCatalog, h: Header, r: Row) -> bool {
    situation_known(cat, h.opponent_character, r.opponent_initiation)
        && situation_known(cat, h.player_character, r.player_response)
}

/// Number of whole rows after the header; trailing partial bytes are ignored.
pub open spec fn row_count(len: int) -> int {
    (len - HEADER_SIZE) / (ROW_SIZE as int)
}

pub open spec fn rows_of(s: Seq<u8>) -> Seq<Row> {
    Seq::new(row_count(s.len() as int) as nat, |i: int| row_at(s, HEADER_SIZE + ROW_SIZE * i))
}

pub open spec fn all_rows_known(cat: CodeCatalog, h: Header, s: Seq<u8>) -> bool {
    forall|i: int| 0 <= i < row_count(s.len() as int) ==> #[trigger] row_known(cat, h, row_at(s, HEADER_SIZE + ROW_SIZE * i))
}

proof fn lemma_u16_le(x: u16)
    ensures
        le16_at(u16_le(x), 0) == x,
{
}

proof fn lemma_u32_le(x: u32)
    ensures
        le32_at(u32_le(x), 0) == x,
{
}

fn push_u16_le(buf: &mut Vec<u8>, x: u16)
    ensures
        final(buf)@ == old(buf)@ + u16_le(x),
{
    buf.push((x % 256) as u8);
    buf.push((x / 256) as u8);
    assert(final(buf)@ =~= old(buf)@ + u16_le(x));
}

fn push_u32_le(buf: &mut Vec<u8>, x: u32)
    ensures
        final(buf)@ == old(buf)@ + u32_le(x),
{
    buf.push((x % 256) as u8);
    buf.push(((x / 256) % 256) as u8);
    buf.push(((x / 65536) % 256) as u8);
    buf.push((x / 16777216) as u8);
    assert(final(buf)@ =~= old(buf)@ + u32_le(x));
}

fn le_u16_at(file: &[u8], at: usize) -> (r: u16)
    requires
        at + 2 <= file@.len(),
    ensures
        r as int == le16_at(file@, at as int),
{
    (file[at] as u16) + (file[at + 1] as u16) * 256
}

fn le_u32_at(file: &[u8], at: usize) -> (r: u32)
    requires
        at + 4 <= file@.len(),
    ensures
        r as int == le32_at(file@, at as int),
{
    (file[at] as u32) + (file[at + 1] as u32) * 256 + (file[at + 2] as u32) * 65536 + (file[at + 3]
        as u32) * 16777216
}

fn byte_at(file: &[u8], at: usize) -> (r: u8)
    requires
        at < file@.len(),
    ensures
        r == file@[at as int],
{
    file[at]
}

/// Reads a little-endian 32-bit value from the start of `file`.
pub fn read_u32(file: &[u8]) -> (r: Result<u32, DBError>)
    ensures
        r is Ok <==> file@.len() >= 4,
        match r {
            Ok(v) => v as int == le32_at(file@, 0),
            Err(e) => e == DBError::InvalidFile,
        },
{
    if file.len() < 4 {
        return Err(DBError::InvalidFile);
    }
    Ok(le_u32_at(file, 0))
}

/// Reads a little-endian 16-bit value from the start of `file`.
pub fn read_u16(file: &[u8]) -> (r: Result<u16, DBError>)
    ensures
        r is Ok <==> file@.len() >= 2,
        match r {
            Ok(v) => v as int == le16_at(file@, 0),
            Err(e) => e == DBError::InvalidFile,
        },
{
    if file.len() < 2 {
        return Err(DBError::InvalidFile);
    }
    Ok(le_u16_at(file, 0))
}

/// Reads the first byte of `file`.
pub fn read_u8(file: &[u8]) -> (r: Result<u8, DBError>)
    ensures
        r is Ok <==> file@.len() >= 1,
        match r {
            Ok(v) => v == file@[0],
            Err(e) => e == DBError::InvalidFile,
        },
{
    if file.len() < 1 {
        return Err(DBError::InvalidFile);
    }
    Ok(byte_at(file, 0))
}

/// Appends the encoding of `header`: version, then the two character codes,
/// zero-padded to `HEADER_SIZE` bytes.
pub fn write_header(buf: &mut Vec<u8>, header: &Header)
    ensures
        final(buf)@ == old(buf)@ + header_bytes(*header),
{
    push_u32_le(buf, header.version);
    buf.push(header.player_character);
    buf.push(header.opponent_character);
    buf.push(0u8);
    buf.push(0u8);
    assert(final(buf)@ =~= old(buf)@ + header_bytes(*header));
}

/// Appends the `ROW_SIZE`-byte encoding of `row`.
pub fn write_row(buf: &mut Vec<u8>, row: &Row)
    ensures
        final(buf)@ == old(buf)@ + row_bytes(*row),
{
    let ghost start = buf@;
    push_u16_le(buf, row.opponent_initiation.start_state);
    push_u16_le(buf, row.opponent_initiation.action_taken);
    push_u32_le(buf, row.opponent_initiation.pos_x);
    push_u32_le(buf, row.opponent_initiation.pos_y);
    push_u16_le(buf, row.player_response.start_state);
    push_u16_le(buf, row.player_response.action_taken);
    push_u32_le(buf, row.player_response.pos_x);
    push_u32_le(buf, row.player_response.pos_y);
    push_u32_le(buf, row.score);
    assert(final(buf)@ =~= start + row_bytes(*row));
}

/// Decodes a header.  Fails when the buffer is shorter than `HEADER_SIZE` or a
/// character code is unknown.
pub fn read_header(file: &[u8], cat: &CodeCatalog) -> (r: Result<Header, DBError>)
    ensures
        r is Ok <==> file@.len() >= HEADER_SIZE && header_known(*cat, header_of(file@)),
        match r {
            Ok(h) => h == header_of(file@),
            Err(e) => e == DBError::InvalidFile,
        },
{
    if file.len() < HEADER_SIZE {
        return Err(DBError::InvalidFile);
    }
    let version = le_u32_at(file, 0);
    let player_character = byte_at(file, 4);
    let opponent_character = byte_at(file, 5);
    if !cat.is_character(player_character) || !cat.is_character(opponent_character) {
        return Err(DBError::InvalidFile);
    }
    Ok(Header { version, player_character, opponent_character })
}

fn read_situation(file: &[u8], at: usize, character: u8, cat: &CodeCatalog) -> (r: Option<Situation>)
    requires
        at + SITUATION_SIZE <= file@.len(),
    ensures
        r is Some <==> situation_known(*cat, character, situation_at(file@, at as int)),
        r is Some ==> r->0 == situation_at(file@, at as int),
{
    let _n = file.len();
    let start_state = le_u16_at(file, at);
    let action_taken = le_u16_at(file, at + 2);
    if !cat.is_broad_state(character, start_state) || !cat.is_action(character, action_taken) {
        return None;
    }
    Some(Situation {
        start_state,
        action_taken,
        pos_x: le_u32_at(file, at + 4),
        pos_y: le_u32_at(file, at + 8),
    })
}

fn read_row_at(file: &[u8], at: usize, header: &Header, cat: &CodeCatalog) -> (r: Result<Row, DBError>)
    requires
        at <= file@.len(),
    ensures
        r is Ok <==> file@.len() - at >= ROW_SIZE && row_known(*cat, *header, row_at(file@, at as int)),
        match r {
            Ok(row) => row == row_at(file@, at as int),
            Err(e) => e == DBError::InvalidFile,
        },
{
    if file.len() - at < ROW_SIZE {
        return Err(DBError::InvalidFile);
    }
    let opponent_initiation = match read_situation(file, at, header.opponent_character, cat) {
        Some(s) => s,
        None => return Err(DBError::InvalidFile),
    };
    let player_response = match read_situation(file, at + 12, header.player_character, cat) {
        Some(s) => s,
        None => return Err(DBError::InvalidFile),
    };
    Ok(Row { player_response, opponent_initiation, score: le_u32_at(file, at + 24) })
}

/// Decodes one row at the start of `file`, reading its state and action codes
/// in the code spaces of the header's characters.
pub fn read_row(file: &[u8], header: &Header, cat: &CodeCatalog) -> (r: Result<Row, DBError>)
    ensures
        r is Ok <==> file@.len() >= ROW_SIZE && row_known(*cat, *header, row_at(file@, 0)),
        match r {
            Ok(row) => row == row_at(file@, 0),
            Err(e) => e == DBError::InvalidFile,
        },
{
    read_row_at(file, 0, header, cat)
}

/// Decodes a whole database file: the header, which must carry `VERSION`,
/// then as many whole rows as follow it.  Trailing bytes shorter than a row
/// are ignored.
pub fn read_file(file: &[u8], cat: &CodeCatalog) -> (r: Result<(Header, Vec<Row>), DBError>)
    ensures
        match r {
            Ok((h, rows)) => {
                &&& file@.len() >= HEADER_SIZE
                &&& h == header_of(file@)
                &&& header_known(*cat, h)
                &&& h.version == VERSION
                &&& all_rows_known(*cat, h, file@)
                &&& rows@ == rows_of(file@)
            },
            Err(DBError::VersionTooNew) => {
                &&& file@.len() >= HEADER_SIZE
                &&& header_known(*cat, header_of(file@))
                &&& header_of(file@).version != VERSION
            },
            Err(DBError::InvalidFile) => {
                ||| file@.len() < HEADER_SIZE
                ||| !header_known(*cat, header_of(file@))
                ||| (header_of(file@).version == VERSION && !all_rows_known(*cat, header_of(file@), file@))
            },
        },
{
    let header = match read_header(file, cat) {
        Ok(h) => h,
        Err(e) => return Err(e),
    };
    if header.version != VERSION {
        return Err(DBError::VersionTooNew);
    }
    let ghost s = file@;
    let ghost n = row_count(s.len() as int);
    let mut rows: Vec<Row> = Vec::new();
    let mut cursor: usize = HEADER_SIZE;
    let mut i: usize = 0;
    while file.len() - cursor >= ROW_SIZE
        invariant
            s == file@,
            header == header_of(s),
            header.version == VERSION,
            header_known(*cat, header),
            HEADER_SIZE <= cursor <= s.len(),
            cursor == HEADER_SIZE + ROW_SIZE * i,
            i <= n,
            n == row_count(s.len() as int),
            rows@.len() == i,
            forall|j: int| 0 <= j < i ==> rows@[j] == row_at(s, HEADER_SIZE + ROW_SIZE * j),
            forall|j: int| 0 <= j < i ==> #[trigger] row_known(*cat, header, row_at(s, HEADER_SIZE + ROW_SIZE * j)),
        decreases s.len() - cursor,
    {
        proof {
            assert(i + 1 <= n) by (nonlinear_arith)
                requires
                    s.len() - cursor >= 28,
                    cursor == 8 + 28 * i,
                    n == (s.len() - 8) / 28,
            ;
        }
        let row = match read_row_at(file, cursor, &header, cat) {
            Ok(row) => row,
            Err(_) => {
                assert(!row_known(*cat, header, row_at(s, HEADER_SIZE + ROW_SIZE * i)));
                assert(!all_rows_known(*cat, header_of(file@), file@));
                return Err(DBError::InvalidFile);
            },
        };
        rows.push(row);
        cursor += ROW_SIZE;
        i += 1;
    }
    proof {
        assert(i == n) by (nonlinear_arith)
            requires
                s.len() - cursor < 28,
                cursor <= s.len(),
                cursor == 8 + 28 * i,
                n == (s.len() - 8) / 28,
        ;
        assert(rows@ =~= rows_of(s));
    }
    Ok((header, rows))
}

/// The bytes of `rows` written back to back.
pub open spec fn rows_bytes(rows: Seq<Row>) -> Seq<u8>
    decreases rows.len(),
{
    if rows.len() == 0 {
        Seq::empty()
    } else {
        rows_bytes(rows.drop_last()) + row_bytes(rows.last())
    }
}

proof fn lemma_rows_bytes(rows: Seq<Row>)
    ensures
        rows_bytes(rows).len() == ROW_SIZE * rows.len(),
        forall|i: int, k: int|
            0 <= i < rows.len() && 0 <= k < ROW_SIZE ==> #[trigger] rows_bytes(rows)[ROW_SIZE * i + k] == row_bytes(rows[i])[k],
    decreases rows.len(),
{
    if rows.len() > 0 {
        let prefix = rows.drop_last();
        lemma_rows_bytes(prefix);
        let n = rows.len() - 1;
        assert forall|i: int, k: int| 0 <= i < rows.len() && 0 <= k < ROW_SIZE implies #[trigger] rows_bytes(rows)[ROW_SIZE
            * i + k] == row_bytes(rows[i])[k] by {
            if i < n {
                assert(ROW_SIZE * i + k < ROW_SIZE * n) by (nonlinear_arith)
                    requires
                        i < n,
                        0 <= k < 28,
                ;
                assert(prefix[i] == rows[i]);
            } else {
                assert(i == n);
            }
        }
    }
}

/// A file written as a known header and rows of known codes decodes to that
/// header and exactly those rows; with the current version `read_file`
/// returns them.
pub proof fn lemma_file_round_trip(cat: CodeCatalog, h: Header, rows: Seq<Row>)
    requires
        header_known(cat, h),
        forall|i: int| 0 <= i < rows.len() ==> row_known(cat, h, #[trigger] rows[i]),
    ensures
        ({
            let s = header_bytes(h) + rows_bytes(rows);
            &&& s.len() >= HEADER_SIZE
            &&& header_of(s) == h
            &&& rows_of(s) == rows
            &&& all_rows_known(cat, h, s)
        }),
{
    let s = header_bytes(h) + rows_bytes(rows);
    lemma_header_round_trip(h);
    lemma_rows_bytes(rows);
    let n = rows.len() as int;
    assert(row_count(s.len() as int) == n) by (nonlinear_arith)
        requires
            s.len() == 8 + 28 * n,
            row_count(s.len() as int) == (s.len() - 8) / 28,
    ;
    assert(header_of(s) == header_of(header_bytes(h)));
    assert forall|i: int| 0 <= i < n implies #[trigger] row_at(s, HEADER_SIZE + ROW_SIZE * i) == rows[i] by {
        let b = row_bytes(rows[i]);
        lemma_row_round_trip(rows[i]);
        assert forall|k: int| 0 <= k < ROW_SIZE implies s[HEADER_SIZE + ROW_SIZE * i + k] == b[k] by {
            assert(rows_bytes(rows)[ROW_SIZE * i + k] == b[k]);
        }
        assert(row_at(s, HEADER_SIZE + ROW_SIZE * i) == row_at(b, 0));
    }
    assert(rows_of(s) =~= rows);
}

/// Encoding a known header and decoding it gives the header back.
pub proof fn lemma_header_round_trip(h: Header)
    ensures
        header_bytes(h).len() == HEADER_SIZE,
        header_of(header_bytes(h)) == h,
{
    lemma_u32_le(h.version);
}

/// Encoding a row and decoding it gives the row back.
pub proof fn lemma_row_round_trip(r: Row)
    ensures
        row_bytes(r).len() == ROW_SIZE,
        row_at(row_bytes(r), 0) == r,
{
    let b = row_bytes(r);
    lemma_u16_le(r.opponent_initiation.start_state);
    lemma_u16_le(r.opponent_initiation.action_taken);
    lemma_u32_le(r.opponent_initiation.pos_x);
    lemma_u32_le(r.opponent_initiation.pos_y);
    lemma_u16_le(r.player_response.start_state);
    lemma_u16_le(r.player_response.action_taken);
    lemma_u32_le(r.player_response.pos_x);
    lemma_u32_le(r.player_response.pos_y);
    lemma_u32_le(r.score);
}

} // verus!
