use slp_action_db::catalog::CodeCatalog;
use slp_action_db::database::{
    read_file, read_header, read_row, read_u16, read_u32, read_u8, write_header, write_row,
    DBError, Header, Row, Situation, VERSION,
};
use slp_action_db::search::{search, ActionRef, SearchQuery, SearchSituation};
use slp_action_db::frames::Frame;

fn catalog() -> CodeCatalog {
    let mut states = Vec::new();
    for c in [1u8, 2] {
        for s in 0u16..50 {
            states.push((c, s));
        }
    }
    CodeCatalog {
        characters: vec![1, 2],
        external_characters: vec![None; 256],
        followers: Vec::new(),
        colours: Vec::new(),
        stages: Vec::new(),
        action_states: Vec::new(),
        broad_states: states.clone(),
        actions: states,
    }
}

fn header() -> Header {
    Header { version: VERSION, player_character: 1, opponent_character: 2 }
}

fn situation(state: u16, action: u16, x: f32, y: f32) -> Situation {
    Situation { start_state: state, action_taken: action, pos_x: x.to_bits(), pos_y: y.to_bits() }
}

fn row(pl_state: u16, op_state: u16, x: f32, score: f32) -> Row {
    Row {
        player_response: situation(pl_state, 3, x, 1.0),
        opponent_initiation: situation(op_state, 4, -x, 2.5),
        score: score.to_bits(),
    }
}

#[test]
fn header_round_trip() {
    let h = Header { version: 0x01020304, player_character: 2, opponent_character: 1 };
    let mut buf = Vec::new();
    write_header(&mut buf, &h);
    assert_eq!(buf, vec![4, 3, 2, 1, 2, 1, 0, 0]);
    assert_eq!(read_header(&buf, &catalog()).unwrap(), h);
}

#[test]
fn row_round_trip_and_layout() {
    let r = row(7, 9, 12.5, -3.0);
    let mut buf = Vec::new();
    write_row(&mut buf, &r);
    assert_eq!(buf.len(), 28);
    assert_eq!(&buf[0..2], &9u16.to_le_bytes());
    assert_eq!(&buf[2..4], &4u16.to_le_bytes());
    assert_eq!(&buf[4..8], &(-12.5f32).to_le_bytes());
    assert_eq!(&buf[12..14], &7u16.to_le_bytes());
    assert_eq!(&buf[24..28], &(-3.0f32).to_le_bytes());
    assert_eq!(read_row(&buf, &header(), &catalog()).unwrap(), r);
}

#[test]
fn header_errors() {
    let cat = catalog();
    assert_eq!(read_header(&[0, 0, 0, 0, 1], &cat), Err(DBError::InvalidFile));
    assert_eq!(read_header(&[0, 0, 0, 0, 1, 9, 0, 0], &cat), Err(DBError::InvalidFile));
}

#[test]
fn row_with_unknown_state_fails() {
    let mut buf = Vec::new();
    write_row(&mut buf, &row(70, 1, 0.0, 0.0));
    assert_eq!(read_row(&buf, &header(), &catalog()), Err(DBError::InvalidFile));
    assert_eq!(read_row(&buf[..27], &header(), &catalog()), Err(DBError::InvalidFile));
}

#[test]
fn file_round_trip_drops_partial_tail() {
    let rows = vec![row(1, 2, 0.0, 1.0), row(3, 4, 5.0, -1.0)];
    let mut buf = Vec::new();
    write_header(&mut buf, &header());
    for r in &rows {
        write_row(&mut buf, r);
    }
    let (h, back) = read_file(&buf, &catalog()).unwrap();
    assert_eq!(h, header());
    assert_eq!(back, rows);
    buf.extend_from_slice(&[1, 2, 3]);
    let (_, back) = read_file(&buf, &catalog()).unwrap();
    assert_eq!(back, rows);
}

#[test]
fn file_with_other_version_fails() {
    let mut buf = Vec::new();
    write_header(&mut buf, &Header { version: VERSION + 1, ..header() });
    write_row(&mut buf, &row(1, 2, 0.0, 1.0));
    assert_eq!(read_file(&buf, &catalog()), Err(DBError::VersionTooNew));
    let mut empty = Vec::new();
    write_header(&mut empty, &Header { version: 7, ..header() });
    assert_eq!(read_file(&empty, &catalog()), Err(DBError::VersionTooNew));
}

#[test]
fn file_with_bad_row_fails() {
    let mut buf = Vec::new();
    write_header(&mut buf, &header());
    write_row(&mut buf, &row(1, 2, 0.0, 1.0));
    write_row(&mut buf, &row(1, 99, 0.0, 1.0));
    assert_eq!(read_file(&buf, &catalog()), Err(DBError::InvalidFile));
}

fn query(pl_state: u16, op_state: u16, x: f32) -> SearchQuery {
    SearchQuery {
        player_response: SearchSituation { start_state: pl_state, pos_x: x.to_bits(), pos_y: 1.0f32.to_bits() },
        opponent_initiation: SearchSituation { start_state: op_state, pos_x: (-x).to_bits(), pos_y: 2.5f32.to_bits() },
    }
}

/// Squared distance of both sides at most 4.0, as the caller computes it.
fn near(rows: &[Row], queries: &[SearchQuery]) -> Vec<Vec<bool>> {
    let d = |a: u32, b: u32, c: u32, e: u32| {
        let dx = f32::from_bits(a) - f32::from_bits(b);
        let dy = f32::from_bits(c) - f32::from_bits(e);
        dx * dx + dy * dy <= 4.0
    };
    queries
        .iter()
        .map(|q| {
            rows.iter()
                .map(|r| {
                    d(q.player_response.pos_x, r.player_response.pos_x, q.player_response.pos_y, r.player_response.pos_y)
                        && d(q.opponent_initiation.pos_x, r.opponent_initiation.pos_x, q.opponent_initiation.pos_y, r.opponent_initiation.pos_y)
                })
                .collect()
        })
        .collect()
}

#[test]
fn search_groups_by_query_in_row_order() {
    let rows = vec![row(1, 2, 0.0, 1.0), row(1, 2, 2.5, 2.0), row(1, 3, 0.0, 3.0), row(1, 2, 1.0, 4.0)];
    let queries = vec![query(1, 2, 0.0), query(1, 3, 0.5), query(5, 2, 0.0)];
    let n = near(&rows, &queries);
    let out = search(&rows, &queries, &n);
    assert_eq!(out.len(), 3);
    assert_eq!(out[0], vec![rows[0], rows[3]]);
    assert_eq!(out[1], vec![rows[2]]);
    assert!(out[2].is_empty());
}

#[test]
fn search_boundary_distance_is_included() {
    let rows = vec![row(1, 2, 2.0, 0.0)];
    let mut q = query(1, 2, 2.0);
    q.player_response.pos_x = 0.0f32.to_bits();
    q.opponent_initiation.pos_x = (-2.0f32).to_bits();
    let n = near(&rows, &[q]);
    assert_eq!(n, vec![vec![true]]);
    assert_eq!(search(&rows, &[q], &n)[0], rows);
}

#[test]
fn search_category_mismatch_excluded_at_same_position() {
    let rows = vec![row(4, 2, 0.0, 0.0)];
    let q = query(1, 2, 0.0);
    let out = search(&rows, &[q], &vec![vec![true]]);
    assert!(out[0].is_empty());
}

#[test]
fn query_from_interaction_frames() {
    let mut f = Frame::null();
    f.position.x = 3.0f32.to_bits();
    f.position.y = 4.0f32.to_bits();
    let frames = vec![Frame::null(), f];
    let pl = ActionRef { frame_start: 1, start_state: 6, action_taken: 2 };
    let op = ActionRef { frame_start: 0, start_state: 8, action_taken: 1 };
    let q = SearchQuery::from_interaction_and_frames(&pl, &op, &frames, &frames);
    assert_eq!(q.player_response.start_state, 6);
    assert_eq!(q.player_response.pos_x, 3.0f32.to_bits());
    assert_eq!(q.opponent_initiation.pos_y, 0);
    assert_eq!(q.opponent_initiation.start_state, 8);
}

#[test]
fn little_endian_field_readers() {
    assert_eq!(read_u32(&[1, 2, 3, 4, 5]), Ok(0x04030201));
    assert_eq!(read_u32(&[1, 2, 3]), Err(DBError::InvalidFile));
    assert_eq!(read_u16(&[0xAB, 0xCD]), Ok(0xCDAB));
    assert_eq!(read_u16(&[0xAB]), Err(DBError::InvalidFile));
    assert_eq!(read_u8(&[9, 8]), Ok(9));
    assert_eq!(read_u8(&[]), Err(DBError::InvalidFile));
}
