//! The wire form of well-formed replies, and the proofs that decoding gives
//! back what was encoded.

use vstd::prelude::*;
use crate::packet::{
    spec_decode, spec_info_body, spec_player, spec_player_list, InfoModel, PacketModel,
    TYPE_CHALLENGE, TYPE_INFO, TYPE_PLAYERS, TYPE_RULES,
};
use crate::rules::{
    escaped, has_forbidden, prefixed, spec_mod_list, spec_mod_record, spec_mod_records, spec_unescape,
    blob_prefixed, is_mod_chunk, spec_rule_entries, ESCAPE_BYTE,
};
use crate::reader::{
    find_zero, le32, lossy_utf8, strict_utf8, signed32, spec_read_bytes, spec_read_cstr, spec_read_i32,
    spec_read_str, spec_read_u16, spec_read_u32, spec_read_u8,
};

verus! {

/// Whether the bytes of `e` stand in `s` from position `p` on.
pub open spec fn holds_at(s: Seq<u8>, p: int, e: Seq<u8>) -> bool {
    0 <= p && p + e.len() <= s.len() && forall|k: int| 0 <= k < e.len() ==> s[p + k] == #[trigger] e[k]
}

/// Whether no byte of `b` is zero.
pub open spec fn zero_free(b: Seq<u8>) -> bool {
    forall|k: int| 0 <= k < b.len() ==> #[trigger] b[k] != 0
}

/// `b` with a terminating zero byte.
pub open spec fn cstr(b: Seq<u8>) -> Seq<u8> {
    b + seq![0u8]
}

/// The four little-endian bytes of `x`.
pub open spec fn u32_bytes(x: u32) -> Seq<u8> {
    seq![(x % 256) as u8, ((x / 256) % 256) as u8, ((x / 65536) % 256) as u8, (x / 16777216) as u8]
}

/// The two little-endian bytes of `x`.
pub open spec fn u16_bytes(x: u16) -> Seq<u8> {
    seq![(x % 256) as u8, (x / 256) as u8]
}

/// The four little-endian two's-complement bytes of `v`.
pub open spec fn i32_bytes(v: i32) -> Seq<u8> {
    u32_bytes((if v >= 0 { v as int } else { v + 0x1_0000_0000 }) as u32)
}

proof fn lemma_holds_split(s: Seq<u8>, p: int, a: Seq<u8>, b: Seq<u8>)
    requires
        holds_at(s, p, a + b),
    ensures
        holds_at(s, p, a),
        holds_at(s, p + a.len(), b),
{
    assert forall|k: int| 0 <= k < a.len() implies s[p + k] == #[trigger] a[k] by {
        assert((a + b)[k] == a[k]);
    }
    assert forall|k: int| 0 <= k < b.len() implies s[p + a.len() + k] == #[trigger] b[k] by {
        assert((a + b)[a.len() + k] == b[k]);
    }
}

proof fn lemma_holds_subrange(s: Seq<u8>, p: int, e: Seq<u8>)
    requires
        holds_at(s, p, e),
    ensures
        s.subrange(p, p + e.len()) == e,
{
    assert forall|k: int| 0 <= k < e.len() implies s.subrange(p, p + e.len())[k] == e[k] by {
        assert(e[k] == s[p + k]);
    }
    assert(s.subrange(p, p + e.len()) =~= e);
}

proof fn lemma_find_zero(s: Seq<u8>, p: int, z: int)
    requires
        0 <= p <= z < s.len(),
        s[z] == 0,
        forall|k: int| p <= k < z ==> s[k] != 0,
    ensures
        find_zero(s, p) == Some(z),
    decreases z - p,
{
    if p < z {
        lemma_find_zero(s, p + 1, z);
    }
}

proof fn lemma_u32_bytes(x: u32)
    ensures
        le32(u32_bytes(x)[0], u32_bytes(x)[1], u32_bytes(x)[2], u32_bytes(x)[3]) == x,
{
    let b = u32_bytes(x);
    assert(b[0] == x % 256);
    assert(b[1] == (x / 256) % 256);
    assert(b[2] == (x / 65536) % 256);
    assert(b[3] == x / 16777216);
    assert((x % 256) + 256 * ((x / 256) % 256) + 65536 * ((x / 65536) % 256) + 16777216 * (x / 16777216) == x)
        by (nonlinear_arith)
        requires
            0 <= x < 0x1_0000_0000,
    ;
}

proof fn lemma_read_u8_at(s: Seq<u8>, p: int, x: u8)
    requires
        holds_at(s, p, seq![x]),
    ensures
        spec_read_u8(s, p) == Ok::<(u8, int), crate::reader::DecodeError>((x, p + 1)),
{
    assert(seq![x][0] == x);
}

proof fn lemma_read_u16_at(s: Seq<u8>, p: int, x: u16)
    requires
        holds_at(s, p, u16_bytes(x)),
    ensures
        spec_read_u16(s, p) == Ok::<(u16, int), crate::reader::DecodeError>((x, p + 2)),
{
    let b = u16_bytes(x);
    assert(s[p] == b[0] && s[p + 1] == b[1]);
    assert((x % 256) + 256 * (x / 256) == x) by (nonlinear_arith)
        requires
            0 <= x < 0x1_0000,
    ;
}

proof fn lemma_read_u32_at(s: Seq<u8>, p: int, x: u32)
    requires
        holds_at(s, p, u32_bytes(x)),
    ensures
        spec_read_u32(s, p) == Ok::<(u32, int), crate::reader::DecodeError>((x, p + 4)),
{
    let b = u32_bytes(x);
    assert(s[p] == b[0] && s[p + 1] == b[1] && s[p + 2] == b[2] && s[p + 3] == b[3]);
    lemma_u32_bytes(x);
}

proof fn lemma_read_i32_at(s: Seq<u8>, p: int, v: i32)
    requires
        holds_at(s, p, i32_bytes(v)),
    ensures
        spec_read_i32(s, p) == Ok::<(i32, int), crate::reader::DecodeError>((v, p + 4)),
{
    let u = (if v >= 0 { v as int } else { v + 0x1_0000_0000 }) as u32;
    let b = u32_bytes(u);
    assert(s[p] == b[0] && s[p + 1] == b[1] && s[p + 2] == b[2] && s[p + 3] == b[3]);
    lemma_u32_bytes(u);
    assert(signed32(u as int) == v);
}

proof fn lemma_read_bytes_at(s: Seq<u8>, p: int, e: Seq<u8>)
    requires
        holds_at(s, p, e),
    ensures
        spec_read_bytes(s, p, e.len() as int) == Ok::<(Seq<u8>, int), crate::reader::DecodeError>((e, p + e.len())),
{
    lemma_holds_subrange(s, p, e);
}

proof fn lemma_read_cstr_at(s: Seq<u8>, p: int, b: Seq<u8>)
    requires
        holds_at(s, p, cstr(b)),
        zero_free(b),
    ensures
        spec_read_cstr(s, p) == Ok::<(Seq<u8>, int), crate::reader::DecodeError>((b, p + b.len() + 1)),
{
    lemma_holds_split(s, p, b, seq![0u8]);
    assert(seq![0u8][0] == 0);
    assert forall|k: int| p <= k < p + b.len() implies s[k] != 0 by {
        assert(s[p + (k - p)] == b[k - p]);
    }
    lemma_find_zero(s, p, p + b.len());
    lemma_holds_subrange(s, p, b);
}

proof fn lemma_read_str_at(s: Seq<u8>, p: int, b: Seq<u8>)
    requires
        holds_at(s, p, cstr(b)),
        zero_free(b),
    ensures
        spec_read_str(s, p) == Ok::<(Seq<char>, int), crate::reader::DecodeError>((lossy_utf8(b), p + b.len() + 1)),
{
    lemma_read_cstr_at(s, p, b);
}

/// The five header bytes of a reply of type `t`.
pub open spec fn header(t: u8) -> Seq<u8> {
    seq![0xFFu8, 0xFF, 0xFF, 0xFF, t]
}

/// A reply of at least five bytes whose header is none of the four known
/// ones decodes to `Unknown`, and `Packet::decode` keeps its bytes as they
/// came.
pub proof fn lemma_unknown_header(s: Seq<u8>)
    requires
        5 <= s.len(),
        !crate::packet::has_header(s, 0, TYPE_INFO),
        !crate::packet::has_header(s, 0, TYPE_RULES),
        !crate::packet::has_header(s, 0, TYPE_PLAYERS),
        !crate::packet::has_header(s, 0, TYPE_CHALLENGE),
    ensures
        spec_decode(s, 0) == Ok::<PacketModel, crate::reader::DecodeError>(PacketModel::Unknown),
{
    reveal(spec_decode);
}

proof fn lemma_decode_info(s: Seq<u8>)
    requires
        5 <= s.len(),
        crate::packet::has_header(s, 0, TYPE_INFO),
    ensures
        spec_decode(s, 0) == match spec_info_body(s, 5) {
            Ok(m) => Ok(PacketModel::Info(m)),
            Err(e) => Err::<PacketModel, crate::reader::DecodeError>(e),
        },
{
    reveal(spec_decode);
}

proof fn lemma_decode_rules(s: Seq<u8>)
    requires
        5 <= s.len(),
        crate::packet::has_header(s, 0, TYPE_RULES),
    ensures
        spec_decode(s, 0) == match crate::rules::spec_rules_body(s, 5) {
            Ok(m) => Ok(PacketModel::Rules(m)),
            Err(e) => Err::<PacketModel, crate::reader::DecodeError>(e),
        },
{
    reveal(spec_decode);
}

proof fn lemma_decode_players(s: Seq<u8>)
    requires
        5 <= s.len(),
        crate::packet::has_header(s, 0, TYPE_PLAYERS),
    ensures
        spec_decode(s, 0) == match crate::packet::spec_players_body(s, 5) {
            Ok(m) => Ok(PacketModel::Players(m)),
            Err(e) => Err::<PacketModel, crate::reader::DecodeError>(e),
        },
{
    reveal(spec_decode);
}

proof fn lemma_decode_challenge(s: Seq<u8>)
    requires
        5 <= s.len(),
        crate::packet::has_header(s, 0, TYPE_CHALLENGE),
    ensures
        spec_decode(s, 0) == match spec_read_bytes(s, 5, 4) {
            Ok((c, _)) => Ok(PacketModel::Challenge(c)),
            Err(e) => Err::<PacketModel, crate::reader::DecodeError>(e),
        },
{
    reveal(spec_decode);
}

proof fn lemma_header_at(s: Seq<u8>, t: u8)
    requires
        holds_at(s, 0, header(t)),
    ensures
        crate::packet::has_header(s, 0, t),
{
    let h = header(t);
    assert(s[0] == h[0] && s[1] == h[1] && s[2] == h[2] && s[3] == h[3] && s[4] == h[4]);
}

/// A player as sent: index, raw name, score and duration bits.
pub type RawPlayer = (u8, Seq<u8>, i32, u32);

/// The wire form of one player record.
pub open spec fn player_bytes(pl: RawPlayer) -> Seq<u8> {
    seq![pl.0] + cstr(pl.1) + i32_bytes(pl.2) + u32_bytes(pl.3)
}

/// The wire form of player records, one after the other.
pub open spec fn player_list_bytes(list: Seq<RawPlayer>) -> Seq<u8>
    decreases list.len(),
{
    if list.len() == 0 {
        Seq::empty()
    } else {
        player_bytes(list[0]) + player_list_bytes(list.drop_first())
    }
}

/// What a player record decodes to.
pub open spec fn decoded_player(pl: RawPlayer) -> (u8, Seq<char>, i32, u32) {
    (pl.0, lossy_utf8(pl.1), pl.2, pl.3)
}

/// A players reply listing `list`.
pub open spec fn players_reply(list: Seq<RawPlayer>) -> Seq<u8> {
    header(TYPE_PLAYERS) + seq![list.len() as u8] + player_list_bytes(list)
}

proof fn lemma_player_at(s: Seq<u8>, p: int, pl: RawPlayer)
    requires
        holds_at(s, p, player_bytes(pl)),
        zero_free(pl.1),
    ensures
        spec_player(s, p) == Ok::<((u8, Seq<char>, i32, u32), int), crate::reader::DecodeError>(
            (decoded_player(pl), p + player_bytes(pl).len()),
        ),
{
    let a = seq![pl.0];
    let b = cstr(pl.1);
    let c = i32_bytes(pl.2);
    let d = u32_bytes(pl.3);
    lemma_holds_split(s, p, a + b + c, d);
    lemma_holds_split(s, p, a + b, c);
    lemma_holds_split(s, p, a, b);
    lemma_read_u8_at(s, p, pl.0);
    lemma_read_str_at(s, p + 1, pl.1);
    lemma_read_i32_at(s, p + 1 + b.len(), pl.2);
    lemma_read_u32_at(s, p + 1 + b.len() + 4, pl.3);
}

proof fn lemma_player_list_at(s: Seq<u8>, p: int, list: Seq<RawPlayer>)
    requires
        holds_at(s, p, player_list_bytes(list)),
        forall|i: int| 0 <= i < list.len() ==> zero_free(#[trigger] list[i].1),
    ensures
        spec_player_list(s, p, list.len() as int) == Ok::<Seq<(u8, Seq<char>, i32, u32)>, crate::reader::DecodeError>(
            list.map_values(|pl: RawPlayer| decoded_player(pl)),
        ),
    decreases list.len(),
{
    if list.len() == 0 {
        assert(list.map_values(|pl: RawPlayer| decoded_player(pl)) =~= Seq::empty());
    } else {
        let rest = list.drop_first();
        lemma_holds_split(s, p, player_bytes(list[0]), player_list_bytes(rest));
        lemma_player_at(s, p, list[0]);
        assert forall|i: int| 0 <= i < rest.len() implies zero_free(#[trigger] rest[i].1) by {
            assert(rest[i] == list[i + 1]);
        }
        lemma_player_list_at(s, p + player_bytes(list[0]).len(), rest);
        assert(list.map_values(|pl: RawPlayer| decoded_player(pl)) =~= seq![decoded_player(list[0])]
            + rest.map_values(|pl: RawPlayer| decoded_player(pl)));
    }
}

/// A players reply of at most 255 records with names free of zero bytes,
/// followed by anything, decodes to those records in order, each name
/// decoded leniently and every other field as sent.
pub proof fn lemma_players_round_trip(list: Seq<RawPlayer>, rest: Seq<u8>)
    requires
        list.len() <= 255,
        forall|i: int| 0 <= i < list.len() ==> zero_free(#[trigger] list[i].1),
    ensures
        spec_decode(players_reply(list) + rest, 0) == Ok::<PacketModel, crate::reader::DecodeError>(
            PacketModel::Players(list.map_values(|pl: RawPlayer| decoded_player(pl))),
        ),
{
    let s = players_reply(list) + rest;
    let h = header(TYPE_PLAYERS);
    let n = seq![list.len() as u8];
    let body = player_list_bytes(list);
    assert(holds_at(s, 0, h + n + body)) by {
        assert forall|k: int| 0 <= k < (h + n + body).len() implies s[0 + k] == #[trigger] (h + n + body)[k] by {
            assert(s[k] == players_reply(list)[k]);
        }
    }
    lemma_holds_split(s, 0, h + n, body);
    lemma_holds_split(s, 0, h, n);
    lemma_header_at(s, TYPE_PLAYERS);
    lemma_decode_players(s);
    lemma_read_u8_at(s, 5, list.len() as u8);
    lemma_player_list_at(s, 6, list);
}

/// A challenge reply decodes to its four bytes, exactly as sent.
pub proof fn lemma_challenge_round_trip(c: Seq<u8>, rest: Seq<u8>)
    requires
        c.len() == 4,
    ensures
        spec_decode(header(TYPE_CHALLENGE) + c + rest, 0) == Ok::<PacketModel, crate::reader::DecodeError>(
            PacketModel::Challenge(c),
        ),
{
    let s = header(TYPE_CHALLENGE) + c + rest;
    let h = header(TYPE_CHALLENGE);
    assert(holds_at(s, 0, h + c)) by {
        assert forall|k: int| 0 <= k < (h + c).len() implies s[0 + k] == #[trigger] (h + c)[k] by {
            assert(s[k] == (h + c)[k]);
        }
    }
    lemma_holds_split(s, 0, h, c);
    lemma_header_at(s, TYPE_CHALLENGE);
    lemma_decode_challenge(s);
    lemma_read_bytes_at(s, 5, c);
}

/// The fields of an info reply as sent, strings as raw bytes.
pub struct RawInfo {
    pub protocol: u8,
    pub name: Seq<u8>,
    pub map: Seq<u8>,
    pub folder: Seq<u8>,
    pub game: Seq<u8>,
    pub app_id: u16,
    pub players: u8,
    pub max_players: u8,
    pub bots: u8,
}

/// The four terminated strings of an info reply.
pub open spec fn info_strings(f: RawInfo) -> Seq<u8> {
    cstr(f.name) + cstr(f.map) + cstr(f.folder) + cstr(f.game)
}

/// The application id and the three counts of an info reply.
pub open spec fn info_numbers(f: RawInfo) -> Seq<u8> {
    u16_bytes(f.app_id) + seq![f.players, f.max_players, f.bots]
}

/// An info reply carrying `f`.
pub open spec fn info_reply(f: RawInfo) -> Seq<u8> {
    header(TYPE_INFO) + seq![f.protocol] + info_strings(f) + info_numbers(f)
}

/// What an info reply carrying `f` decodes to.
pub open spec fn decoded_info(f: RawInfo) -> InfoModel {
    InfoModel {
        protocol: f.protocol,
        name: lossy_utf8(f.name),
        map: lossy_utf8(f.map),
        folder: lossy_utf8(f.folder),
        game: lossy_utf8(f.game),
        app_id: f.app_id,
        players: f.players,
        max_players: f.max_players,
        bots: f.bots,
    }
}

proof fn lemma_holds_prefix(a: Seq<u8>, rest: Seq<u8>)
    ensures
        holds_at(a + rest, 0, a),
{
    assert forall|k: int| 0 <= k < a.len() implies (a + rest)[0 + k] == #[trigger] a[k] by {}
}

proof fn lemma_info_strings_at(s: Seq<u8>, p: int, f: RawInfo)
    requires
        holds_at(s, p, info_strings(f)),
        zero_free(f.name),
        zero_free(f.map),
        zero_free(f.folder),
        zero_free(f.game),
    ensures
        ({
            let p1 = p + f.name.len() + 1;
            let p2 = p1 + f.map.len() + 1;
            let p3 = p2 + f.folder.len() + 1;
            let p4 = p3 + f.game.len() + 1;
            &&& spec_read_str(s, p) == Ok::<(Seq<char>, int), crate::reader::DecodeError>((lossy_utf8(f.name), p1))
            &&& spec_read_str(s, p1) == Ok::<(Seq<char>, int), crate::reader::DecodeError>((lossy_utf8(f.map), p2))
            &&& spec_read_str(s, p2) == Ok::<(Seq<char>, int), crate::reader::DecodeError>((lossy_utf8(f.folder), p3))
            &&& spec_read_str(s, p3) == Ok::<(Seq<char>, int), crate::reader::DecodeError>((lossy_utf8(f.game), p4))
            &&& p4 == p + info_strings(f).len()
        }),
{
    let (b1, b2, b3, b4) = (cstr(f.name), cstr(f.map), cstr(f.folder), cstr(f.game));
    lemma_holds_split(s, p, b1 + b2 + b3, b4);
    lemma_holds_split(s, p, b1 + b2, b3);
    lemma_holds_split(s, p, b1, b2);
    lemma_read_str_at(s, p, f.name);
    lemma_read_str_at(s, p + b1.len(), f.map);
    lemma_read_str_at(s, p + b1.len() + b2.len(), f.folder);
    lemma_read_str_at(s, p + b1.len() + b2.len() + b3.len(), f.game);
}

proof fn lemma_info_body(s: Seq<u8>, f: RawInfo, p1: int, p2: int, p3: int, p4: int, p5: int)
    requires
        spec_read_u8(s, 5) == Ok::<(u8, int), crate::reader::DecodeError>((f.protocol, 6)),
        spec_read_str(s, 6) == Ok::<(Seq<char>, int), crate::reader::DecodeError>((lossy_utf8(f.name), p1)),
        spec_read_str(s, p1) == Ok::<(Seq<char>, int), crate::reader::DecodeError>((lossy_utf8(f.map), p2)),
        spec_read_str(s, p2) == Ok::<(Seq<char>, int), crate::reader::DecodeError>((lossy_utf8(f.folder), p3)),
        spec_read_str(s, p3) == Ok::<(Seq<char>, int), crate::reader::DecodeError>((lossy_utf8(f.game), p4)),
        spec_read_u16(s, p4) == Ok::<(u16, int), crate::reader::DecodeError>((f.app_id, p5)),
        spec_read_bytes(s, p5, 3) == Ok::<(Seq<u8>, int), crate::reader::DecodeError>((seq![f.players, f.max_players, f.bots], p5 + 3)),
    ensures
        spec_info_body(s, 5) == Ok::<InfoModel, crate::reader::DecodeError>(decoded_info(f)),
{
    let d = seq![f.players, f.max_players, f.bots];
    assert(d[0] == f.players && d[1] == f.max_players && d[2] == f.bots);
}

/// An info reply whose strings hold no zero byte, followed by anything
/// (the fields that this decoder leaves unread), decodes to its fields:
/// strings decoded leniently, numbers as sent.
pub proof fn lemma_info_round_trip(f: RawInfo, rest: Seq<u8>)
    requires
        zero_free(f.name),
        zero_free(f.map),
        zero_free(f.folder),
        zero_free(f.game),
    ensures
        spec_decode(info_reply(f) + rest, 0) == Ok::<PacketModel, crate::reader::DecodeError>(
            PacketModel::Info(decoded_info(f)),
        ),
{
    let s = info_reply(f) + rest;
    let h = header(TYPE_INFO);
    let a = seq![f.protocol];
    let b = info_strings(f);
    let c = u16_bytes(f.app_id);
    let d = seq![f.players, f.max_players, f.bots];
    lemma_holds_prefix(info_reply(f), rest);
    lemma_holds_split(s, 0, h + a + b, c + d);
    lemma_holds_split(s, 0, h + a, b);
    lemma_holds_split(s, 0, h, a);
    let p5 = 6 + b.len() as int;
    lemma_holds_split(s, p5, c, d);
    lemma_header_at(s, TYPE_INFO);
    lemma_decode_info(s);
    lemma_read_u8_at(s, 5, f.protocol);
    lemma_info_strings_at(s, 6, f);
    lemma_read_u16_at(s, p5, f.app_id);
    lemma_read_bytes_at(s, p5 + 2, d);
    let p1 = 6 + f.name.len() as int + 1;
    let p2 = p1 + f.map.len() + 1;
    let p3 = p2 + f.folder.len() + 1;
    lemma_info_body(s, f, p1, p2, p3, p5, p5 + 2);
}

/// How one byte is escaped in the mod-list blob.
pub open spec fn escape_byte(b: u8) -> Seq<u8> {
    if b == 0x01 {
        seq![ESCAPE_BYTE, 0x01]
    } else if b == 0x00 {
        seq![ESCAPE_BYTE, 0x02]
    } else if b == 0xFF {
        seq![ESCAPE_BYTE, 0x03]
    } else {
        seq![b]
    }
}

/// The escaped form of `d`: no zero byte and no `0xFF` remain.
pub open spec fn escape(d: Seq<u8>) -> Seq<u8>
    decreases d.len(),
{
    if d.len() == 0 {
        Seq::empty()
    } else {
        escape_byte(d[0]) + escape(d.drop_first())
    }
}

/// Unescaping undoes escaping.
pub proof fn lemma_unescape_escape(d: Seq<u8>)
    ensures
        spec_unescape(escape(d)) == Ok::<Seq<u8>, crate::reader::DecodeError>(d),
    decreases d.len(),
{
    if d.len() > 0 {
        let t = d.drop_first();
        let e = escape(d);
        let eb = escape_byte(d[0]);
        lemma_unescape_escape(t);
        assert(e == eb + escape(t));
        if eb.len() == 2 {
            assert(e.subrange(2, e.len() as int) =~= escape(t));
            assert(e[0] == ESCAPE_BYTE);
            assert(escaped(e[1]) == d[0]);
        } else {
            assert(e.subrange(1, e.len() as int) =~= escape(t));
            assert(e[0] == d[0]);
        }
        assert(seq![d[0]] + t =~= d);
    } else {
        assert(escape(d) =~= Seq::<u8>::empty());
        assert(d =~= Seq::<u8>::empty());
    }
}

/// The escaped form holds no zero byte, so it can travel in rule values.
pub proof fn lemma_escape_zero_free(d: Seq<u8>)
    ensures
        zero_free(escape(d)),
    decreases d.len(),
{
    if d.len() > 0 {
        lemma_escape_zero_free(d.drop_first());
        let eb = escape_byte(d[0]);
        let t = escape(d.drop_first());
        assert forall|k: int| 0 <= k < (eb + t).len() implies #[trigger] (eb + t)[k] != 0 by {
            if k >= eb.len() {
                assert((eb + t)[k] == t[k - eb.len()]);
            }
        }
    }
}

/// A mod record as sent: five bytes that are skipped, the id and the raw
/// name.
pub type RawMod = (Seq<u8>, u32, Seq<u8>);

/// The wire form of one mod record.
pub open spec fn mod_record_bytes(m: RawMod) -> Seq<u8> {
    m.0 + u32_bytes(m.1) + seq![m.2.len() as u8] + m.2
}

/// Whether a mod record can be sent: five skipped bytes, a name of at most
/// 255 bytes that, unless it holds a forbidden byte, is UTF-8.
pub open spec fn mod_record_ok(m: RawMod) -> bool {
    m.0.len() == 5 && m.2.len() <= 255 && (!has_forbidden(m.2) ==> strict_utf8(m.2) is Some)
}

/// The wire form of mod records, one after the other.
pub open spec fn mod_records_bytes(list: Seq<RawMod>) -> Seq<u8>
    decreases list.len(),
{
    if list.len() == 0 {
        Seq::empty()
    } else {
        mod_record_bytes(list[0]) + mod_records_bytes(list.drop_first())
    }
}

/// The mods that the records in `list` give: those whose names hold no
/// forbidden byte, in order.
pub open spec fn kept_mods(list: Seq<RawMod>) -> Seq<(u32, Seq<char>)>
    decreases list.len(),
{
    if list.len() == 0 {
        Seq::empty()
    } else if has_forbidden(list[0].2) {
        kept_mods(list.drop_first())
    } else {
        seq![(list[0].1, strict_utf8(list[0].2)->0)] + kept_mods(list.drop_first())
    }
}

proof fn lemma_mod_record_at(s: Seq<u8>, p: int, m: RawMod)
    requires
        holds_at(s, p, mod_record_bytes(m)),
        mod_record_ok(m),
    ensures
        spec_mod_record(s, p) == Ok::<(Option<(u32, Seq<char>)>, int), crate::reader::DecodeError>((
            if has_forbidden(m.2) { None } else { Some((m.1, strict_utf8(m.2)->0)) },
            p + mod_record_bytes(m).len(),
        )),
{
    let a = m.0;
    let b = u32_bytes(m.1);
    let c = seq![m.2.len() as u8];
    lemma_holds_split(s, p, a + b + c, m.2);
    lemma_holds_split(s, p, a + b, c);
    lemma_holds_split(s, p, a, b);
    lemma_read_bytes_at(s, p, a);
    lemma_read_u32_at(s, p + 5, m.1);
    lemma_read_u8_at(s, p + 9, m.2.len() as u8);
    lemma_read_bytes_at(s, p + 10, m.2);
}

proof fn lemma_mod_records_at(s: Seq<u8>, p: int, list: Seq<RawMod>)
    requires
        holds_at(s, p, mod_records_bytes(list)),
        forall|i: int| 0 <= i < list.len() ==> mod_record_ok(#[trigger] list[i]),
    ensures
        spec_mod_records(s, p, list.len() as int) == Ok::<Seq<(u32, Seq<char>)>, crate::reader::DecodeError>(
            kept_mods(list),
        ),
    decreases list.len(),
{
    if list.len() > 0 {
        let rest = list.drop_first();
        lemma_holds_split(s, p, mod_record_bytes(list[0]), mod_records_bytes(rest));
        lemma_mod_record_at(s, p, list[0]);
        assert forall|i: int| 0 <= i < rest.len() implies mod_record_ok(#[trigger] rest[i]) by {
            assert(rest[i] == list[i + 1]);
        }
        lemma_mod_records_at(s, p + mod_record_bytes(list[0]).len(), rest);
    }
}

/// A record whose name holds a forbidden byte (such as a line feed) is
/// dropped, and a well-formed record after it is still decoded and kept.
pub proof fn lemma_forbidden_record_dropped(bad: RawMod, good: RawMod, rest: Seq<u8>)
    requires
        mod_record_ok(bad),
        mod_record_ok(good),
        has_forbidden(bad.2),
        !has_forbidden(good.2),
    ensures
        spec_mod_records(mod_record_bytes(bad) + mod_record_bytes(good) + rest, 0, 2)
            == Ok::<Seq<(u32, Seq<char>)>, crate::reader::DecodeError>(seq![(good.1, strict_utf8(good.2)->0)]),
{
    let s = mod_record_bytes(bad) + mod_record_bytes(good) + rest;
    let a = mod_record_bytes(bad);
    let b = mod_record_bytes(good);
    assert(holds_at(s, 0, a + b)) by {
        assert forall|k: int| 0 <= k < (a + b).len() implies s[0 + k] == #[trigger] (a + b)[k] by {
            assert(s[k] == (a + b)[k]);
        }
    }
    lemma_holds_split(s, 0, a, b);
    lemma_mod_record_at(s, 0, bad);
    lemma_mod_record_at(s, a.len() as int, good);
    let q2 = (a.len() + b.len()) as int;
    assert(spec_mod_records(s, q2, 0) == Ok::<Seq<(u32, Seq<char>)>, crate::reader::DecodeError>(Seq::empty()));
    assert(spec_mod_records(s, a.len() as int, 1) == prefixed(seq![(good.1, strict_utf8(good.2)->0)], spec_mod_records(s, q2, 0)));
    assert(seq![(good.1, strict_utf8(good.2)->0)] + Seq::<(u32, Seq<char>)>::empty() =~= seq![(good.1, strict_utf8(good.2)->0)]);
}

/// The cleaned mod-list blob: two skipped bytes, the flag, the bytes
/// skipped after it (five where it is set, one where not), the record count
/// and the records.
pub open spec fn mod_blob(lead: Seq<u8>, flag: u8, gap: Seq<u8>, list: Seq<RawMod>) -> Seq<u8> {
    lead + seq![flag] + gap + seq![list.len() as u8] + mod_records_bytes(list)
}

/// Whether the parts of a mod-list blob can be sent.
pub open spec fn mod_blob_ok(lead: Seq<u8>, flag: u8, gap: Seq<u8>, list: Seq<RawMod>) -> bool {
    &&& lead.len() == 2
    &&& gap.len() == if flag > 0 { 5int } else { 1int }
    &&& list.len() <= 255
    &&& forall|i: int| 0 <= i < list.len() ==> mod_record_ok(#[trigger] list[i])
}

/// A well-formed mod-list blob gives back the mods whose names hold no
/// forbidden byte, in order, with their ids and names as sent.
pub proof fn lemma_mod_list_round_trip(lead: Seq<u8>, flag: u8, gap: Seq<u8>, list: Seq<RawMod>)
    requires
        mod_blob_ok(lead, flag, gap, list),
    ensures
        spec_mod_list(mod_blob(lead, flag, gap, list)) == Ok::<Seq<(u32, Seq<char>)>, crate::reader::DecodeError>(
            kept_mods(list),
        ),
{
    let s = mod_blob(lead, flag, gap, list);
    let n = seq![list.len() as u8];
    let f = seq![flag];
    let r = mod_records_bytes(list);
    assert(holds_at(s, 0, s)) by {
        assert forall|k: int| 0 <= k < s.len() implies s[0 + k] == #[trigger] s[k] by {}
    }
    lemma_holds_split(s, 0, lead + f + gap + n, r);
    lemma_holds_split(s, 0, lead + f + gap, n);
    lemma_holds_split(s, 0, lead + f, gap);
    lemma_holds_split(s, 0, lead, f);
    lemma_read_bytes_at(s, 0, lead);
    lemma_read_u8_at(s, 2, flag);
    lemma_read_bytes_at(s, 3, gap);
    lemma_read_u8_at(s, 3 + gap.len() as int, list.len() as u8);
    lemma_mod_records_at(s, 4 + gap.len() as int, list);
}

/// The wire form of one rule: its name and its value, each terminated.
pub open spec fn rule_bytes(name: Seq<u8>, value: Seq<u8>) -> Seq<u8> {
    cstr(name) + cstr(value)
}

/// The rules that carry `chunks` from the one at index `i` on: the rule at
/// index `j` is named by the bytes `j + 1` and the chunk count, and holds
/// chunk `j` as its value.
pub open spec fn chunk_rules_bytes(chunks: Seq<Seq<u8>>, i: int) -> Seq<u8>
    decreases chunks.len() - i,
{
    if i < 0 || i >= chunks.len() {
        Seq::empty()
    } else {
        rule_bytes(seq![(i + 1) as u8, chunks.len() as u8], chunks[i]) + chunk_rules_bytes(chunks, i + 1)
    }
}

/// The chunks from index `i` on, joined.
pub open spec fn joined(chunks: Seq<Seq<u8>>, i: int) -> Seq<u8>
    decreases chunks.len() - i,
{
    if i < 0 || i >= chunks.len() {
        Seq::empty()
    } else {
        chunks[i] + joined(chunks, i + 1)
    }
}

/// The wire form of ordinary rules, one after the other.
pub open spec fn plain_rules_bytes(rules: Seq<(Seq<u8>, Seq<u8>)>) -> Seq<u8>
    decreases rules.len(),
{
    if rules.len() == 0 {
        Seq::empty()
    } else {
        rule_bytes(rules[0].0, rules[0].1) + plain_rules_bytes(rules.drop_first())
    }
}

/// A rules reply: the chunks of the mod list first, then the ordinary
/// rules.
pub open spec fn rules_reply(chunks: Seq<Seq<u8>>, rules: Seq<(Seq<u8>, Seq<u8>)>) -> Seq<u8> {
    header(TYPE_RULES) + u16_bytes((chunks.len() + rules.len()) as u16) + chunk_rules_bytes(chunks, 0)
        + plain_rules_bytes(rules)
}

proof fn lemma_chunk_rules_at(s: Seq<u8>, p: int, chunks: Seq<Seq<u8>>, i: int, n: int)
    requires
        0 <= i <= chunks.len() <= 255,
        chunks.len() <= n,
        holds_at(s, p, chunk_rules_bytes(chunks, i)),
        forall|j: int| 0 <= j < chunks.len() ==> zero_free(#[trigger] chunks[j]),
    ensures
        spec_rule_entries(s, p, i, n, true) == blob_prefixed(
            joined(chunks, i),
            spec_rule_entries(s, p + chunk_rules_bytes(chunks, i).len(), chunks.len() as int, n, true),
        ),
    decreases chunks.len() - i,
{
    if i == chunks.len() {
        assert(joined(chunks, i) =~= Seq::<u8>::empty());
        match spec_rule_entries(s, p, i, n, true) {
            Ok((b, e)) => assert(Seq::<u8>::empty() + b =~= b),
            Err(_) => {},
        }
    } else {
        let name = seq![(i + 1) as u8, chunks.len() as u8];
        let head = rule_bytes(name, chunks[i]);
        lemma_holds_split(s, p, head, chunk_rules_bytes(chunks, i + 1));
        lemma_holds_split(s, p, cstr(name), cstr(chunks[i]));
        assert(zero_free(name)) by {
            assert(name[0] == (i + 1) as u8 && name[1] == chunks.len() as u8);
        }
        lemma_read_cstr_at(s, p, name);
        lemma_read_cstr_at(s, p + name.len() + 1, chunks[i]);
        assert(is_mod_chunk(name, i));
        let q = p + head.len();
        lemma_chunk_rules_at(s, q, chunks, i + 1, n);
        match spec_rule_entries(s, q + chunk_rules_bytes(chunks, i + 1).len(), chunks.len() as int, n, true) {
            Ok((b, e)) => assert(chunks[i] + (joined(chunks, i + 1) + b) =~= joined(chunks, i) + b),
            Err(_) => {},
        }
    }
}

proof fn lemma_plain_rules_at(s: Seq<u8>, p: int, rules: Seq<(Seq<u8>, Seq<u8>)>, i: int, on: bool)
    requires
        0 <= i,
        holds_at(s, p, plain_rules_bytes(rules)),
        forall|j: int| 0 <= j < rules.len() ==> zero_free(#[trigger] rules[j].0) && zero_free(rules[j].1),
        on && rules.len() > 0 ==> !is_mod_chunk(rules[0].0, i),
    ensures
        spec_rule_entries(s, p, i, i + rules.len(), on) == Ok::<(Seq<u8>, int), crate::reader::DecodeError>(
            (Seq::empty(), p + plain_rules_bytes(rules).len()),
        ),
    decreases rules.len(),
{
    if rules.len() > 0 {
        let r = rules[0];
        let tail = rules.drop_first();
        lemma_holds_split(s, p, rule_bytes(r.0, r.1), plain_rules_bytes(tail));
        lemma_holds_split(s, p, cstr(r.0), cstr(r.1));
        lemma_read_cstr_at(s, p, r.0);
        lemma_read_cstr_at(s, p + r.0.len() + 1, r.1);
        assert forall|j: int| 0 <= j < tail.len() implies zero_free(#[trigger] tail[j].0) && zero_free(tail[j].1) by {
            assert(tail[j] == rules[j + 1]);
        }
        lemma_plain_rules_at(s, p + rule_bytes(r.0, r.1).len(), tail, i + 1, false);
        assert(Seq::<u8>::empty() + Seq::<u8>::empty() =~= Seq::<u8>::empty());
    }
}

/// A rules reply whose leading rules carry the escaped mod-list blob in
/// chunks, followed by ordinary rules (the first of which does not look
/// like the next chunk) and anything after, decodes to the mods of the
/// blob whose names hold no forbidden byte, ids and names as sent.
pub proof fn lemma_rules_round_trip(
    chunks: Seq<Seq<u8>>,
    rules: Seq<(Seq<u8>, Seq<u8>)>,
    lead: Seq<u8>,
    flag: u8,
    gap: Seq<u8>,
    mods: Seq<RawMod>,
    rest: Seq<u8>,
)
    requires
        chunks.len() <= 255,
        chunks.len() + rules.len() <= 0xFFFF,
        forall|j: int| 0 <= j < chunks.len() ==> zero_free(#[trigger] chunks[j]),
        forall|j: int| 0 <= j < rules.len() ==> zero_free(#[trigger] rules[j].0) && zero_free(rules[j].1),
        rules.len() > 0 ==> !is_mod_chunk(rules[0].0, chunks.len() as int),
        mod_blob_ok(lead, flag, gap, mods),
        joined(chunks, 0) == escape(mod_blob(lead, flag, gap, mods)),
    ensures
        spec_decode(rules_reply(chunks, rules) + rest, 0) == Ok::<PacketModel, crate::reader::DecodeError>(
            PacketModel::Rules(kept_mods(mods)),
        ),
{
    let s = rules_reply(chunks, rules) + rest;
    let n = (chunks.len() + rules.len()) as u16;
    let h = header(TYPE_RULES);
    let c = u16_bytes(n);
    let cb = chunk_rules_bytes(chunks, 0);
    let pb = plain_rules_bytes(rules);
    lemma_holds_prefix(rules_reply(chunks, rules), rest);
    lemma_holds_split(s, 0, h + c + cb, pb);
    lemma_holds_split(s, 0, h + c, cb);
    lemma_holds_split(s, 0, h, c);
    lemma_header_at(s, TYPE_RULES);
    lemma_decode_rules(s);
    lemma_read_u16_at(s, 5, n);
    lemma_rules_blob_at(s, chunks, rules);
    let blob = mod_blob(lead, flag, gap, mods);
    lemma_unescape_escape(blob);
    lemma_mod_list_round_trip(lead, flag, gap, mods);
    lemma_rules_body_from(s, joined(chunks, 0), blob, kept_mods(mods), 7 + cb.len() as int + pb.len() as int);
}

proof fn lemma_rules_blob_at(s: Seq<u8>, chunks: Seq<Seq<u8>>, rules: Seq<(Seq<u8>, Seq<u8>)>)
    requires
        chunks.len() <= 255,
        chunks.len() + rules.len() <= 0xFFFF,
        forall|j: int| 0 <= j < chunks.len() ==> zero_free(#[trigger] chunks[j]),
        forall|j: int| 0 <= j < rules.len() ==> zero_free(#[trigger] rules[j].0) && zero_free(rules[j].1),
        rules.len() > 0 ==> !is_mod_chunk(rules[0].0, chunks.len() as int),
        spec_read_u16(s, 5) == Ok::<(u16, int), crate::reader::DecodeError>(((chunks.len() + rules.len()) as u16, 7)),
        holds_at(s, 7, chunk_rules_bytes(chunks, 0)),
        holds_at(s, 7 + chunk_rules_bytes(chunks, 0).len() as int, plain_rules_bytes(rules)),
    ensures
        crate::rules::spec_rules_blob(s, 5) == Ok::<(Seq<u8>, int), crate::reader::DecodeError>(
            (joined(chunks, 0), 7 + chunk_rules_bytes(chunks, 0).len() as int + plain_rules_bytes(rules).len() as int),
        ),
{
    let n = (chunks.len() + rules.len()) as u16;
    let k = chunks.len() as int;
    let cb = chunk_rules_bytes(chunks, 0);
    assert(n as int == k + rules.len());
    lemma_chunk_rules_at(s, 7, chunks, 0, n as int);
    lemma_plain_rules_at(s, 7 + cb.len() as int, rules, k, true);
    assert(joined(chunks, 0) + Seq::<u8>::empty() =~= joined(chunks, 0));
}

proof fn lemma_rules_body_from(s: Seq<u8>, chunked: Seq<u8>, clean: Seq<u8>, m: Seq<(u32, Seq<char>)>, end: int)
    requires
        crate::rules::spec_rules_blob(s, 5) == Ok::<(Seq<u8>, int), crate::reader::DecodeError>((chunked, end)),
        spec_unescape(chunked) == Ok::<Seq<u8>, crate::reader::DecodeError>(clean),
        spec_mod_list(clean) == Ok::<Seq<(u32, Seq<char>)>, crate::reader::DecodeError>(m),
    ensures
        crate::rules::spec_rules_body(s, 5) == Ok::<Seq<(u32, Seq<char>)>, crate::reader::DecodeError>(m),
{
}

} // verus!
