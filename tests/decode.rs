use a2s_query::packet::{Packet, Player};
use a2s_query::reader::{DecodeError, PacketBytes};
use a2s_query::rules::{has_forbidden_byte, read_mod_chunks, unescape, Mod};

fn decode(bytes: &[u8]) -> Result<Packet, DecodeError> {
    Packet::decode(PacketBytes::new(bytes.to_vec()))
}

fn player_record(out: &mut Vec<u8>, index: u8, name: &str, score: i32, duration: f32) {
    out.push(index);
    out.extend_from_slice(name.as_bytes());
    out.push(0);
    out.extend_from_slice(&score.to_le_bytes());
    out.extend_from_slice(&duration.to_le_bytes());
}

fn rule(out: &mut Vec<u8>, name: &[u8], value: &[u8]) {
    out.extend_from_slice(name);
    out.push(0);
    out.extend_from_slice(value);
    out.push(0);
}

fn mod_record(out: &mut Vec<u8>, id: u32, name: &[u8]) {
    out.extend_from_slice(&[9, 9, 9, 9, 9]);
    out.extend_from_slice(&id.to_le_bytes());
    out.push(name.len() as u8);
    out.extend_from_slice(name);
}

fn escape(blob: &[u8]) -> Vec<u8> {
    let mut out = vec![];
    for &b in blob {
        match b {
            0x01 => out.extend_from_slice(&[0x01, 0x01]),
            0x00 => out.extend_from_slice(&[0x01, 0x02]),
            0xFF => out.extend_from_slice(&[0x01, 0x03]),
            other => out.push(other),
        }
    }
    out
}

/// A rules reply that carries `blob` escaped in two chunks, then one
/// ordinary rule.
fn rules_reply(blob: &[u8]) -> Vec<u8> {
    let escaped = escape(blob);
    let half = escaped.len() / 2;
    let mut out = vec![0xFF, 0xFF, 0xFF, 0xFF, 0x45, 3, 0];
    rule(&mut out, &[1, 2], &escaped[..half]);
    rule(&mut out, &[2, 2], &escaped[half..]);
    rule(&mut out, b"map", b"de_dust2");
    out
}

fn mods_of(packet: &Packet) -> Vec<(u32, String)> {
    match packet {
        Packet::Rules(r) => r.mods().iter().map(|m: &Mod| (m.id, m.name.clone())).collect(),
        _ => panic!("not a rules packet"),
    }
}

#[test]
fn unknown_header_keeps_bytes() {
    let bytes = [0xFF, 0xFF, 0xFF, 0xFF, 0x58, 0x01, 0x02, 0x03];
    let packet = decode(&bytes).unwrap();
    assert!(matches!(packet, Packet::Unknown(_)));
    assert_eq!(packet.bytes().cursor().get_ref(), &bytes.to_vec());
}

#[test]
fn missing_marker_is_unknown() {
    let bytes = [0x00, 0xFF, 0xFF, 0xFF, 0x49, 0x11];
    assert!(matches!(decode(&bytes).unwrap(), Packet::Unknown(_)));
}

#[test]
fn short_header_fails() {
    assert_eq!(decode(&[0xFF, 0xFF, 0xFF, 0xFF]).err(), Some(DecodeError::ShortRead));
    assert_eq!(decode(&[]).err(), Some(DecodeError::ShortRead));
}

#[test]
fn players_two_records_in_order() {
    let mut bytes = vec![0xFF, 0xFF, 0xFF, 0xFF, 0x44, 2];
    player_record(&mut bytes, 0, "alice", 15, 120.5);
    player_record(&mut bytes, 1, "bob", -3, 7.25);
    let packet = decode(&bytes).unwrap();
    let players = match &packet {
        Packet::Players(p) => p.players(),
        _ => panic!("not a players packet"),
    };
    assert_eq!(players.len(), 2);
    let first: &Player = &players[0];
    assert_eq!(first.index, 0);
    assert_eq!(first.name, "alice");
    assert_eq!(first.score, 15);
    assert_eq!(f32::from_bits(first.duration_bits), 120.5);
    assert_eq!(players[1].index, 1);
    assert_eq!(players[1].name, "bob");
    assert_eq!(players[1].score, -3);
    assert_eq!(f32::from_bits(players[1].duration_bits), 7.25);
    assert_eq!(packet.bytes().cursor().get_ref(), &bytes);
}

#[test]
fn players_truncated_record_fails_whole_packet() {
    let mut bytes = vec![0xFF, 0xFF, 0xFF, 0xFF, 0x44, 2];
    player_record(&mut bytes, 0, "alice", 15, 120.5);
    player_record(&mut bytes, 1, "bob", -3, 7.25);
    bytes.pop();
    assert_eq!(decode(&bytes).err(), Some(DecodeError::ShortRead));
}

#[test]
fn players_zero_count() {
    let packet = decode(&[0xFF, 0xFF, 0xFF, 0xFF, 0x44, 0]).unwrap();
    match packet {
        Packet::Players(p) => assert!(p.players().is_empty()),
        _ => panic!("not a players packet"),
    }
}

#[test]
fn player_name_invalid_utf8_is_replaced() {
    let mut bytes = vec![0xFF, 0xFF, 0xFF, 0xFF, 0x44, 1, 4, b'a', 0xC3, 0x28, 0];
    bytes.extend_from_slice(&7i32.to_le_bytes());
    bytes.extend_from_slice(&1.0f32.to_le_bytes());
    match decode(&bytes).unwrap() {
        Packet::Players(p) => assert_eq!(p.players()[0].name, "a\u{FFFD}("),
        _ => panic!("not a players packet"),
    }
}

#[test]
fn info_fields_and_trailing_bytes() {
    let mut bytes = vec![0xFF, 0xFF, 0xFF, 0xFF, 0x49, 17];
    for s in ["My Server", "de_dust2", "cstrike", "Counter-Strike"] {
        bytes.extend_from_slice(s.as_bytes());
        bytes.push(0);
    }
    bytes.extend_from_slice(&240u16.to_le_bytes());
    bytes.extend_from_slice(&[12, 32, 2]);
    bytes.extend_from_slice(&[b'd', b'l', 0, 1, 0xAA]);
    match decode(&bytes).unwrap() {
        Packet::Info(info) => {
            assert_eq!(info.protocol(), 17);
            assert_eq!(info.name(), "My Server");
            assert_eq!(info.map(), "de_dust2");
            assert_eq!(info.folder(), "cstrike");
            assert_eq!(info.game(), "Counter-Strike");
            assert_eq!(info.app_id(), 240);
            assert_eq!(*info.players(), 12);
            assert_eq!(info.max_players(), 32);
            assert_eq!(info.bots(), 2);
            assert_eq!(info.bytes().cursor().get_ref(), &bytes);
        }
        _ => panic!("not an info packet"),
    }
}

#[test]
fn info_cut_short_fails() {
    let bytes = [0xFF, 0xFF, 0xFF, 0xFF, 0x49, 17, b'a', 0, b'b'];
    assert_eq!(decode(&bytes).err(), Some(DecodeError::ShortRead));
}

#[test]
fn challenge_bytes_kept_opaque() {
    let bytes = [0xFF, 0xFF, 0xFF, 0xFF, 0x41, 0x0A, 0x00, 0xFF, 0x80];
    match decode(&bytes).unwrap() {
        Packet::Challenge(c) => {
            assert_eq!(c.challenge(), &[0x0A, 0x00, 0xFF, 0x80]);
            assert_eq!(c.bytes().cursor().get_ref(), &bytes.to_vec());
        }
        _ => panic!("not a challenge packet"),
    }
}

#[test]
fn challenge_cut_short_fails() {
    let bytes = [0xFF, 0xFF, 0xFF, 0xFF, 0x41, 0x0A, 0x00];
    assert_eq!(decode(&bytes).err(), Some(DecodeError::ShortRead));
}

#[test]
fn chunk_run_joins_leading_chunks_only() {
    let mut body = vec![];
    rule(&mut body, &[1, 3], b"A");
    rule(&mut body, &[2, 3], b"B");
    rule(&mut body, &[3, 3], b"C");
    rule(&mut body, b"map", b"de_dust2");
    rule(&mut body, &[5, 9], b"D");
    let len = body.len();
    let mut rd = PacketBytes::new(body);
    let blob = read_mod_chunks(&mut rd, 5).unwrap();
    assert_eq!(blob, b"ABC".to_vec());
    assert_eq!(rd.cursor().position(), len);
}

#[test]
fn chunk_run_stops_at_first_non_chunk() {
    let mut body = vec![];
    rule(&mut body, &[1, 3], b"A");
    rule(&mut body, b"map", b"x");
    rule(&mut body, &[3, 3], b"C");
    let mut rd = PacketBytes::new(body);
    assert_eq!(read_mod_chunks(&mut rd, 3).unwrap(), b"A".to_vec());
}

#[test]
fn chunk_needs_count_at_least_index() {
    let mut body = vec![];
    rule(&mut body, &[1, 1], b"A");
    rule(&mut body, &[2, 1], b"B");
    let mut rd = PacketBytes::new(body);
    assert_eq!(read_mod_chunks(&mut rd, 2).unwrap(), b"A".to_vec());
}

#[test]
fn chunk_run_cut_short_fails() {
    let mut body = vec![];
    rule(&mut body, &[1, 3], b"A");
    let mut rd = PacketBytes::new(body);
    assert_eq!(read_mod_chunks(&mut rd, 2).err(), Some(DecodeError::ShortRead));
}

#[test]
fn unescape_pairs() {
    let data = vec![0x01, 0x01, 0x05, 0x01, 0x02, 0x01, 0x03];
    assert_eq!(unescape(&data).unwrap(), vec![0x01, 0x05, 0x00, 0xFF]);
}

#[test]
fn unescape_other_escaped_byte_passes() {
    assert_eq!(unescape(&vec![0x01, 0x07, 0x08]).unwrap(), vec![0x07, 0x08]);
    assert_eq!(unescape(&vec![]).unwrap(), Vec::<u8>::new());
}

#[test]
fn unescape_trailing_marker_fails() {
    assert_eq!(unescape(&vec![0x05, 0x01]).err(), Some(DecodeError::ShortRead));
}

#[test]
fn rules_mods_decoded() {
    let mut blob = vec![0xAB, 0xCD, 1, 0, 0, 0, 0, 0, 2];
    mod_record(&mut blob, 450814997, b"@CBA_A3");
    mod_record(&mut blob, 0x01FF00, b"ACE");
    let packet = decode(&rules_reply(&blob)).unwrap();
    assert_eq!(
        mods_of(&packet),
        vec![(450814997, "@CBA_A3".to_string()), (0x01FF00, "ACE".to_string())]
    );
    match &packet {
        Packet::Rules(r) => assert!(r.rules().is_empty()),
        _ => panic!("not a rules packet"),
    }
}

#[test]
fn rules_flag_unset_skips_one_byte() {
    let mut blob = vec![0xAB, 0xCD, 0, 0, 1];
    mod_record(&mut blob, 7, b"x");
    assert_eq!(mods_of(&decode(&rules_reply(&blob)).unwrap()), vec![(7, "x".to_string())]);
}

#[test]
fn mod_with_line_feed_dropped_next_kept() {
    let mut blob = vec![0, 0, 0, 0, 2];
    mod_record(&mut blob, 11, b"bad\nname");
    mod_record(&mut blob, 22, b"good");
    assert_eq!(mods_of(&decode(&rules_reply(&blob)).unwrap()), vec![(22, "good".to_string())]);
}

#[test]
fn mod_name_invalid_utf8_fails() {
    let mut blob = vec![0, 0, 0, 0, 1];
    mod_record(&mut blob, 11, &[0xC3, 0x28]);
    assert_eq!(decode(&rules_reply(&blob)).err(), Some(DecodeError::InvalidUtf8));
}

#[test]
fn rules_without_mod_list_fails() {
    let mut bytes = vec![0xFF, 0xFF, 0xFF, 0xFF, 0x45, 1, 0];
    rule(&mut bytes, b"map", b"de_dust2");
    assert_eq!(decode(&bytes).err(), Some(DecodeError::ShortRead));
}

#[test]
fn mod_list_cut_short_fails() {
    let mut blob = vec![0, 0, 0, 0, 2];
    mod_record(&mut blob, 11, b"one");
    assert_eq!(decode(&rules_reply(&blob)).err(), Some(DecodeError::ShortRead));
}

#[test]
fn forbidden_bytes() {
    for b in [0x08u8, 0x09, 0x0A, 0x0C, 0x0D] {
        assert!(has_forbidden_byte(&vec![b'a', b]));
    }
    assert!(!has_forbidden_byte(&vec![b'a', 0x0B, 0x0E, b' ']));
}
