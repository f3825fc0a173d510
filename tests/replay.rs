use slp_action_db::catalog::CodeCatalog;
use slp_action_db::wire::{Direction, InvalidLocation, SlpError, Vector};
use slp_action_db::container::{event_sizes, parse_item_update, parse_raw_header};
use slp_action_db::frames::{
    merge_pre_post_frames, parse_post_frame_update, parse_pre_frame_update, write_frame_at, Frame,
    FrameReconstructor, PostFrameUpdate, PreFrameUpdate,
};
use slp_action_db::game_start::{
    check_game_start, parse_file_info, parse_file_info_slpz, parse_game_start, parse_game_start_actual,
};
use slp_action_db::replay::{parse_old_file, GameInfo};

const POPO: u8 = 10;

fn catalog() -> CodeCatalog {
    let mut action_states = Vec::new();
    for c in 0u8..33 {
        for s in 0u16..400 {
            action_states.push((c, s));
        }
    }
    let mut colours = Vec::new();
    for c in 0u8..33 {
        for k in 0u8..6 {
            colours.push((c, k));
        }
    }
    let mut external = vec![None; 256];
    for e in 0u8..33 {
        external[e as usize] = Some(e);
    }
    CodeCatalog {
        characters: (0u8..33).collect(),
        external_characters: external,
        followers: vec![POPO],
        colours,
        stages: vec![2, 3, 8, 28, 31, 32],
        action_states,
        broad_states: Vec::new(),
        actions: Vec::new(),
    }
}

const GS_LEN: usize = 0xD5;
const PRE_LEN: usize = 0x40;
const POST_LEN: usize = 0x30;
const BOOKEND_LEN: usize = 9;
const END_LEN: usize = 2;

fn event_table() -> Vec<u8> {
    event_table_with(GS_LEN)
}

fn event_table_with(gs_len: usize) -> Vec<u8> {
    let entries: [(u8, usize); 5] = [
        (0x36, gs_len - 1),
        (0x37, PRE_LEN - 1),
        (0x38, POST_LEN - 1),
        (0x39, END_LEN - 1),
        (0x3C, BOOKEND_LEN - 1),
    ];
    let mut t = vec![0x35, (1 + 3 * entries.len()) as u8];
    for (code, size) in entries {
        t.push(code);
        t.extend_from_slice(&(size as u16).to_be_bytes());
    }
    t
}

/// A game start with the given (external character, colour) per port.
fn game_start(ports: [Option<(u8, u8)>; 4], stage: u16, major: u8) -> Vec<u8> {
    let mut g = vec![0u8; GS_LEN];
    g[0] = 0x36;
    g[1] = major;
    g[5 + 0xE..5 + 0x10].copy_from_slice(&stage.to_be_bytes());
    g[5 + 0x10..5 + 0x14].copy_from_slice(&28800u32.to_be_bytes());
    for (i, p) in ports.iter().enumerate() {
        let base = 5 + 0x24 * i;
        match p {
            None => g[base + 0x61] = 3,
            Some((ch, colour)) => {
                g[base + 0x60] = *ch;
                g[base + 0x61] = 0;
                g[base + 0x63] = *colour;
            }
        }
    }
    g
}

fn pre_event(port: u8, follower: bool, buttons: u16, stick_x: f32) -> Vec<u8> {
    let mut e = vec![0u8; PRE_LEN];
    e[0] = 0x37;
    e[5] = port;
    e[6] = follower as u8;
    e[0x19..0x1D].copy_from_slice(&stick_x.to_bits().to_be_bytes());
    e[0x31..0x33].copy_from_slice(&buttons.to_be_bytes());
    e
}

fn post_event(port: u8, follower: bool, character: u8, state: u16, x: f32, y: f32, percent: f32) -> Vec<u8> {
    let mut e = vec![0u8; POST_LEN];
    e[0] = 0x38;
    e[5] = port;
    e[6] = follower as u8;
    e[7] = character;
    e[8..10].copy_from_slice(&state.to_be_bytes());
    e[0xA..0xE].copy_from_slice(&x.to_bits().to_be_bytes());
    e[0xE..0x12].copy_from_slice(&y.to_bits().to_be_bytes());
    e[0x12..0x16].copy_from_slice(&1.0f32.to_bits().to_be_bytes());
    e[0x16..0x1A].copy_from_slice(&percent.to_bits().to_be_bytes());
    e[0x21] = 4;
    e
}

fn bookend(frame: i32) -> Vec<u8> {
    let mut e = vec![0u8; BOOKEND_LEN];
    e[0] = 0x3C;
    e[1..5].copy_from_slice(&frame.to_be_bytes());
    e
}

fn game_end() -> Vec<u8> {
    vec![0x39, 0]
}

/// Wraps a game start and events into a container with a short metadata tail.
fn container(gs: &[u8], events: &[Vec<u8>]) -> Vec<u8> {
    container_with(GS_LEN, gs, events)
}

fn container_with(gs_len: usize, gs: &[u8], events: &[Vec<u8>]) -> Vec<u8> {
    let mut body = event_table_with(gs_len);
    body.extend_from_slice(gs);
    for e in events {
        body.extend_from_slice(e);
    }
    let mut c = b"{U\x03raw[$U#l".to_vec();
    c.extend_from_slice(&(body.len() as u32).to_be_bytes());
    c.extend_from_slice(&body);
    c.extend_from_slice(b"U\x08metadata{}}");
    c
}

fn two_ports() -> Vec<u8> {
    game_start([Some((2, 0)), Some((20, 1)), None, None], 31, 3)
}

#[test]
fn two_ports_three_frames_reconstruct() {
    let mut events = Vec::new();
    for f in 0..3i32 {
        events.push(pre_event(0, false, 0x100 + f as u16, 0.5));
        events.push(pre_event(1, false, 0x200 + f as u16, -0.5));
        events.push(post_event(0, false, 2, 14, f as f32, 10.0, 0.0));
        events.push(post_event(1, false, 20, 20 + f as u16, -(f as f32), 0.0, 12.5));
        events.push(bookend(f - 123));
    }
    events.push(game_end());
    let file = container(&two_ports(), &events);
    let game = parse_old_file(&file, &catalog()).unwrap();
    assert_eq!(game.frame_count, 3);
    assert_eq!(game.info.stage, 31);
    assert_eq!(game.info.timer, 28800);
    assert_eq!(game.info.port_used, vec![true, true, false, false]);
    assert!(game.frames[2].is_none() && game.frames[3].is_none());
    assert!(game.follower_frames.iter().all(|f| f.is_none()));
    let p0 = game.frames[0].as_ref().unwrap();
    let p1 = game.frames[1].as_ref().unwrap();
    assert_eq!(p0.len(), 3);
    assert_eq!(p1.len(), 3);
    for f in 0..3usize {
        assert_eq!(p0[f].position.x, (f as f32).to_bits());
        assert_eq!(p0[f].position.y, 10.0f32.to_bits());
        assert_eq!(p0[f].buttons_mask, 0x100 + f as u16);
        assert_eq!(p0[f].left_stick_coords.x, 0.5f32.to_bits());
        assert_eq!(p0[f].state, 14);
        assert_eq!(p0[f].character, 2);
        assert_eq!(p0[f].direction, Direction::Right);
        assert_eq!(p0[f].stock_count, 4);
        assert_eq!(p1[f].port_idx, 1);
        assert_eq!(p1[f].state, 20 + f as u16);
        assert_eq!(p1[f].buttons_mask, 0x200 + f as u16);
        assert_eq!(p1[f].percent, 12.5f32.to_bits());
        assert_eq!(p1[f].position.x, (-(f as f32)).to_bits());
    }
}

#[test]
fn rollback_keeps_last_write() {
    let events = vec![
        pre_event(0, false, 1, 0.0),
        post_event(0, false, 2, 14, 1.0, 1.0, 0.0),
        bookend(-123),
        pre_event(0, false, 2, 0.0),
        post_event(0, false, 2, 15, 2.0, 2.0, 0.0),
        bookend(-122),
        pre_event(0, false, 3, 0.0),
        post_event(0, false, 2, 16, 3.0, 3.0, 0.0),
        bookend(-122),
        game_end(),
    ];
    let gs = game_start([Some((2, 0)), None, None, None], 31, 3);
    let game = parse_old_file(&container(&gs, &events), &catalog()).unwrap();
    let p0 = game.frames[0].as_ref().unwrap();
    assert_eq!(p0.len(), 2);
    assert_eq!(game.frame_count, 2);
    assert_eq!(p0[1].state, 16);
    assert_eq!(p0[1].buttons_mask, 3);
    assert_eq!(p0[1].position.x, 3.0f32.to_bits());
    assert_eq!(p0[0].state, 14);
}

#[test]
fn bookend_beyond_end_grows_with_null_frames() {
    let events = vec![
        pre_event(0, false, 1, 0.0),
        post_event(0, false, 2, 14, 1.0, 1.0, 0.0),
        bookend(-123),
        bookend(5 - 123),
        game_end(),
    ];
    let gs = game_start([Some((2, 0)), None, None, None], 31, 3);
    let game = parse_old_file(&container(&gs, &events), &catalog()).unwrap();
    let p0 = game.frames[0].as_ref().unwrap();
    assert_eq!(p0.len(), 6);
    for k in 1..5 {
        assert_eq!(p0[k], Frame::null());
    }
    assert_eq!(p0[5].state, 14);
    assert_eq!(p0[0].state, 14);
}

#[test]
fn write_frame_at_grows_and_overwrites() {
    let mut frames = Vec::new();
    let mut f = Frame::null();
    f.state = 7;
    write_frame_at(&mut frames, 3, f);
    assert_eq!(frames.len(), 4);
    assert_eq!(frames[0], Frame::null());
    assert_eq!(frames[3].state, 7);
    f.state = 9;
    write_frame_at(&mut frames, 1, f);
    assert_eq!(frames.len(), 4);
    assert_eq!(frames[1].state, 9);
}

#[test]
fn follower_slot_tracked_for_popo() {
    let events = vec![
        pre_event(0, true, 9, 0.0),
        post_event(0, false, POPO, 14, 1.0, 0.0, 0.0),
        post_event(0, true, 11, 15, 2.0, 0.0, 0.0),
        bookend(-123),
        game_end(),
    ];
    let gs = game_start([Some((POPO, 0)), None, None, None], 31, 3);
    let game = parse_old_file(&container(&gs, &events), &catalog()).unwrap();
    let nana = game.follower_frames[0].as_ref().unwrap();
    assert_eq!(nana.len(), 1);
    assert_eq!(nana[0].character, 11);
    assert_eq!(nana[0].buttons_mask, 9);
    assert!(nana[0].is_follower);
    assert_eq!(game.frames[0].as_ref().unwrap()[0].buttons_mask, 0);
}

#[test]
fn events_after_game_end_are_ignored() {
    let events = vec![
        post_event(0, false, 2, 14, 1.0, 0.0, 0.0),
        bookend(-123),
        game_end(),
        bookend(10 - 123),
    ];
    let gs = game_start([Some((2, 0)), None, None, None], 31, 3);
    let game = parse_old_file(&container(&gs, &events), &catalog()).unwrap();
    assert_eq!(game.frame_count, 1);
}

#[test]
fn unknown_action_state_fails_the_parse() {
    let events = vec![post_event(0, false, 2, 900, 1.0, 0.0, 0.0), bookend(-123), game_end()];
    let gs = game_start([Some((2, 0)), None, None, None], 31, 3);
    let r = parse_old_file(&container(&gs, &events), &catalog());
    assert!(matches!(r, Err(SlpError::InvalidFile(InvalidLocation::PostFrameUpdate))));
}

#[test]
fn bad_magic_is_not_a_replay() {
    let mut file = container(&two_ports(), &[game_end()]);
    file[0] = b'X';
    assert!(matches!(parse_old_file(&file, &catalog()), Err(SlpError::NotAnSlpFile)));
    assert!(matches!(parse_raw_header(&file[..10]), Err(SlpError::NotAnSlpFile)));
}

#[test]
fn raw_header_locates_table_and_metadata() {
    let file = container(&two_ports(), &[game_end()]);
    let h = parse_raw_header(&file).unwrap();
    assert_eq!(h.event_sizes_offset, 15);
    assert_eq!(h.metadata_offset, 15 + 17 + GS_LEN + END_LEN);
    assert_eq!(&file[h.metadata_offset..h.metadata_offset + 1], b"U");
}

#[test]
fn event_table_decodes_entries() {
    let file = container(&two_ports(), &[]);
    let t = event_sizes(&file, 15).unwrap();
    assert_eq!(t.game_start_offset, 32);
    assert_eq!(t.event_sizes.len(), 256);
    assert_eq!(t.event_sizes[0x36], (GS_LEN - 1) as u16);
    assert_eq!(t.event_sizes[0x3C], 8);
    assert_eq!(t.event_sizes[0x3B], 0);
    assert!(matches!(event_sizes(&file, 16), Err(SlpError::InvalidFile(InvalidLocation::EventSizes))));
    assert!(matches!(event_sizes(&file[..20], 15), Err(SlpError::InvalidFile(InvalidLocation::EventSizes))));
}

#[test]
fn game_start_version_and_codes() {
    let cat = catalog();
    let g = parse_game_start(&two_ports(), &cat).unwrap();
    assert_eq!(g.stage, 31);
    assert_eq!(g.starting_character_colours[0].unwrap().character, 2);
    assert_eq!(g.starting_character_colours[1].unwrap().colour, 1);
    assert!(g.starting_character_colours[2].is_none());
    let old = game_start([Some((2, 0)), None, None, None], 31, 0);
    assert!(matches!(parse_game_start(&old, &cat), Err(SlpError::OutdatedFile)));
    let bad_stage = game_start([Some((2, 0)), None, None, None], 1000, 3);
    assert!(matches!(parse_game_start(&bad_stage, &cat), Err(SlpError::InvalidFile(InvalidLocation::GameStart))));
    let bad_colour = game_start([Some((2, 9)), None, None, None], 31, 3);
    assert!(matches!(parse_game_start(&bad_colour, &cat), Err(SlpError::InvalidFile(InvalidLocation::GameStart))));
    let bad_char = game_start([Some((200, 0)), None, None, None], 31, 3);
    assert!(matches!(parse_game_start(&bad_char, &cat), Err(SlpError::InvalidFile(InvalidLocation::GameStart))));
}

#[test]
fn no_active_port_fails_assembly() {
    let gs = game_start([None, None, None, None], 31, 3);
    let r = parse_old_file(&container(&gs, &[game_end()]), &catalog());
    assert!(matches!(r, Err(SlpError::InvalidFile(InvalidLocation::GameStart))));
}

#[test]
fn file_info_reads_game_start_only() {
    let file = container(&two_ports(), &[bookend(-123), game_end()]);
    let g = parse_file_info(&file, &catalog()).unwrap();
    assert_eq!(g.stage, 31);
    assert!(g.starting_character_colours[1].is_some());
}

#[test]
fn file_info_slpz_header() {
    let cat = catalog();
    let table = event_table();
    let mut buf = Vec::new();
    buf.extend_from_slice(&0u32.to_be_bytes());
    buf.extend_from_slice(&24u32.to_be_bytes());
    buf.extend_from_slice(&((24 + table.len()) as u32).to_be_bytes());
    buf.extend_from_slice(&[0u8; 12]);
    buf.extend_from_slice(&table);
    buf.extend_from_slice(&two_ports());
    let g = parse_file_info_slpz(&buf, &cat).unwrap();
    assert_eq!(g.timer, 28800);
    buf[3] = 1;
    assert!(matches!(parse_file_info_slpz(&buf, &cat), Err(SlpError::TooNewFile)));
}

#[test]
fn pre_and_post_records_decode() {
    let cat = catalog();
    let pre = parse_pre_frame_update(&pre_event(2, true, 0x1234, 0.25)).unwrap();
    assert_eq!(pre.port_idx, 2);
    assert!(pre.is_follower);
    assert_eq!(pre.buttons_mask, 0x1234);
    assert_eq!(pre.left_stick_coords.x, 0.25f32.to_bits());
    assert_eq!(parse_pre_frame_update(&pre_event(4, false, 0, 0.0)).unwrap().port_idx, 4);
    assert!(parse_pre_frame_update(&[0x37; 10]).is_err());
    let post = parse_post_frame_update(&post_event(1, false, 20, 33, 5.0, -3.0, 50.0), &cat).unwrap();
    assert_eq!(post.character, 20);
    assert_eq!(post.state, 33);
    assert_eq!(post.position, Vector { x: 5.0f32.to_bits(), y: (-3.0f32).to_bits() });
    assert_eq!(post.direction, Direction::Right);
    assert!(parse_post_frame_update(&post_event(1, false, 99, 33, 0.0, 0.0, 0.0), &cat).is_err());
    let merged = merge_pre_post_frames(&pre, &post);
    assert_eq!(merged.buttons_mask, 0x1234);
    assert_eq!(merged.character, 20);
    assert_eq!(merged.port_idx, 1);
}

#[test]
fn item_update_decodes() {
    let mut e = vec![0u8; 0x2C];
    e[0] = 0x3B;
    e[1..5].copy_from_slice(&(-100i32).to_be_bytes());
    e[5..7].copy_from_slice(&0x63u16.to_be_bytes());
    e[0x8..0xC].copy_from_slice(&1.0f32.to_bits().to_be_bytes());
    e[0x2A] = 0xFF;
    let u = parse_item_update(&e).unwrap();
    assert_eq!(u.frame_idx, 23);
    assert_eq!(u.type_id, 0x63);
    assert_eq!(u.direction, Direction::Right);
    assert_eq!(u.owner, -1);
    e[0] = 0x3A;
    assert!(parse_item_update(&e).is_err());
}

#[test]
fn reconstructor_commit_overwrites() {
    let mut r = FrameReconstructor::new(&vec![0, 4]);
    let mut pre = PreFrameUpdate::null();
    pre.buttons_mask = 5;
    r.apply_pre(pre);
    let mut post = PostFrameUpdate::null();
    post.state = 3;
    post.is_follower = true;
    r.apply_post(post);
    r.commit(2);
    assert_eq!(r.outputs[0].frames.len(), 3);
    assert_eq!(r.outputs[0].frames[2].buttons_mask, 5);
    assert_eq!(r.outputs[1].frames[2].state, 3);
    assert_eq!(r.outputs[0].frames[2].state, 0);
    pre.buttons_mask = 6;
    r.apply_pre(pre);
    r.commit(2);
    assert_eq!(r.outputs[0].frames.len(), 3);
    assert_eq!(r.outputs[0].frames[2].buttons_mask, 6);
}

fn current_game_start(ports: [Option<(u8, u8)>; 4]) -> Vec<u8> {
    let mut g = game_start(ports, 31, 3);
    g.resize(0x221 + 40, 0);
    for i in 0..4 {
        for j in 0..31 {
            g[0x1A5 + 0x1F * i + j] = b'a' + i as u8;
        }
        for j in 0..10 {
            g[0x221 + 0xA * i + j] = b'0' + i as u8;
        }
    }
    g
}

#[test]
fn current_layout_reads_names_and_codes() {
    let cat = catalog();
    let g = parse_game_start_actual(&current_game_start([Some((2, 0)), None, Some((3, 1)), None]), &cat).unwrap();
    assert_eq!(g.names[0], vec![b'a'; 31]);
    assert_eq!(g.connect_codes[0], vec![b'0'; 10]);
    assert_eq!(g.names[1], vec![0u8; 31]);
    assert_eq!(g.names[2], vec![b'c'; 31]);
    assert_eq!(g.connect_codes[2], vec![b'2'; 10]);
    assert_eq!(g.starting_character_colours[2].unwrap().character, 3);
}

#[test]
fn current_layout_errors() {
    let cat = catalog();
    let mut old = current_game_start([Some((2, 0)), None, None, None]);
    old[1] = 2;
    assert!(matches!(parse_game_start_actual(&old, &cat), Err(SlpError::InvalidFile(InvalidLocation::GameStart))));
    let mut short = current_game_start([None, None, None, Some((2, 0))]);
    short.truncate(0x221 + 35);
    assert!(matches!(parse_game_start_actual(&short, &cat), Err(SlpError::IOError)));
    let legacy = game_start([Some((2, 0)), None, None, None], 31, 3);
    assert!(matches!(parse_game_start_actual(&legacy, &cat), Err(SlpError::IOError)));
}

#[test]
fn legacy_game_start_leaves_names_blank() {
    let g = parse_game_start(&two_ports(), &catalog()).unwrap();
    assert_eq!(g.names, vec![vec![0u8; 31]; 4]);
    assert_eq!(g.connect_codes, vec![vec![0u8; 10]; 4]);
}

#[test]
fn dataset_selection() {
    let ditto = game_start([Some((2, 0)), None, Some((2, 3)), None], 31, 3);
    assert!(check_game_start(&container(&ditto, &[game_end()])));
    let other = game_start([Some((2, 0)), Some((9, 0)), None, None], 31, 3);
    assert!(!check_game_start(&container(&other, &[game_end()])));
    let three = game_start([Some((2, 0)), Some((2, 0)), Some((2, 0)), None], 31, 3);
    assert!(!check_game_start(&container(&three, &[game_end()])));
    let mut cpu = game_start([Some((2, 0)), Some((2, 0)), None, None], 31, 3);
    cpu[5 + 0x24 + 0x61] = 1;
    assert!(!check_game_start(&container(&cpu, &[game_end()])));
    assert!(!check_game_start(b"not a replay"));
}

#[test]
fn post_update_with_high_port_decodes() {
    let post = parse_post_frame_update(&post_event(6, false, 20, 33, 0.0, 0.0, 0.0), &catalog()).unwrap();
    assert_eq!(post.port_idx, 6);
}

#[test]
fn update_addressing_no_slot_fails_the_stream() {
    let gs = game_start([Some((2, 0)), None, None, None], 31, 3);
    let pre = vec![pre_event(4, true, 0, 0.0), bookend(-123), game_end()];
    let r = parse_old_file(&container(&gs, &pre), &catalog());
    assert!(matches!(r, Err(SlpError::InvalidFile(InvalidLocation::PreFrameUpdate))));
    let post = vec![post_event(5, true, 2, 14, 0.0, 0.0, 0.0), bookend(-123), game_end()];
    let r = parse_old_file(&container(&gs, &post), &catalog());
    assert!(matches!(r, Err(SlpError::InvalidFile(InvalidLocation::PostFrameUpdate))));
}

#[test]
fn port_four_update_lands_in_follower_slot() {
    let events = vec![
        pre_event(4, false, 7, 0.0),
        post_event(0, false, POPO, 14, 0.0, 0.0, 0.0),
        post_event(4, false, 11, 15, 0.0, 0.0, 0.0),
        bookend(-123),
        game_end(),
    ];
    let gs = game_start([Some((POPO, 0)), None, None, None], 31, 3);
    let game = parse_old_file(&container(&gs, &events), &catalog()).unwrap();
    let nana = game.follower_frames[0].as_ref().unwrap();
    assert_eq!(nana[0].buttons_mask, 7);
    assert_eq!(nana[0].state, 15);
}

#[test]
fn current_layout_mid_size_record_is_io_error() {
    let mut g = game_start([Some((2, 0)), None, None, None], 31, 3);
    g.truncate(0x69);
    assert!(matches!(parse_game_start_actual(&g, &catalog()), Err(SlpError::IOError)));
    let mut tiny = game_start([Some((2, 0)), None, None, None], 31, 3);
    tiny.truncate(0x60);
    assert!(matches!(parse_game_start_actual(&tiny, &catalog()), Err(SlpError::InvalidFile(InvalidLocation::GameStart))));
}

#[test]
fn legacy_record_ending_after_last_empty_port_decodes() {
    let mut g = game_start([Some((2, 0)), None, None, None], 31, 3);
    g.truncate(0xD3);
    let gs = parse_game_start(&g, &catalog()).unwrap();
    assert!(gs.starting_character_colours[0].is_some());
    g.truncate(0xD2);
    assert!(parse_game_start(&g, &catalog()).is_err());
}

#[test]
fn dataset_selection_with_short_game_start_record() {
    let ditto = game_start([Some((2, 0)), None, Some((2, 3)), None], 31, 3);
    let file = container_with(0x20, &ditto[..0x20], &[ditto[0x20..].to_vec(), game_end()]);
    assert!(check_game_start(&file));
    let cut = container_with(0x20, &ditto[..0x20], &[]);
    assert!(!check_game_start(&cut[..15 + 17 + 0x20 + 10]));
}

#[test]
fn low_high_ports_needs_exactly_two() {
    let info = |used: Vec<bool>| GameInfo {
        stage: 31,
        port_used: used,
        starting_character_colours: vec![None; 4],
        timer: 0,
        names: Vec::new(),
        connect_codes: Vec::new(),
    };
    assert_eq!(info(vec![false, true, false, true]).low_high_ports(), Some((1, 3)));
    assert_eq!(info(vec![true, true, true, false]).low_high_ports(), None);
    assert_eq!(info(vec![false, false, true, false]).low_high_ports(), None);
}

#[test]
fn parsed_game_has_blank_names() {
    let file = container(&two_ports(), &[bookend(-123), game_end()]);
    let game = parse_old_file(&file, &catalog()).unwrap();
    assert_eq!(game.info.names, vec![vec![0u8; 31]; 4]);
    assert_eq!(game.info.connect_codes, vec![vec![0u8; 10]; 4]);
}
