//! Reply packets: classification by header and the info, players and
//! challenge parsers.

use vstd::prelude::*;
use crate::reader::{
    spec_read_bytes, spec_read_i32, spec_read_str, spec_read_u16, spec_read_u32, spec_read_u8,
    DecodeError, PacketBytes,
};
use crate::rules::{prefixed, spec_rules_body, Packet_Rules};

verus! {

/// The type byte of an info reply.
pub const TYPE_INFO: u8 = 0x49;
/// The type byte of a rules reply.
pub const TYPE_RULES: u8 = 0x45;
/// The type byte of a players reply.
pub const TYPE_PLAYERS: u8 = 0x44;
/// The type byte of a challenge reply.
pub const TYPE_CHALLENGE: u8 = 0x41;

/// A player listed in a players reply.
pub struct Player {
    pub index: u8,
    pub name: String,
    pub score: i32,
    /// The bit pattern of the little-endian `f32` of seconds connected.
    pub duration_bits: u32,
}

/// A player as the contracts see it: index, name, score and duration bits.
pub open spec fn player_view(p: Player) -> (u8, Seq<char>, i32, u32) {
    (p.index, p.name@, p.score, p.duration_bits)
}

/// The contract view of a list of players.
pub open spec fn players_view(v: Seq<Player>) -> Seq<(u8, Seq<char>, i32, u32)> {
    v.map_values(|p: Player| player_view(p))
}

/// One player record at `p`: an index byte, a terminated name, a
/// little-endian `i32` score and a little-endian `f32` duration.
pub open spec fn spec_player(s: Seq<u8>, p: int) -> Result<((u8, Seq<char>, i32, u32), int), DecodeError> {
    match spec_read_u8(s, p) {
        Err(e) => Err(e),
        Ok((index, p1)) => match spec_read_str(s, p1) {
            Err(e) => Err(e),
            Ok((name, p2)) => match spec_read_i32(s, p2) {
                Err(e) => Err(e),
                Ok((score, p3)) => match spec_read_u32(s, p3) {
                    Err(e) => Err(e),
                    Ok((duration, p4)) => Ok(((index, name, score, duration), p4)),
                },
            },
        },
    }
}

/// The `n` player records that start at `p`, in order.
pub open spec fn spec_player_list(s: Seq<u8>, p: int, n: int) -> Result<Seq<(u8, Seq<char>, i32, u32)>, DecodeError>
    decreases n,
{
    if n <= 0 {
        Ok(Seq::empty())
    } else {
        match spec_player(s, p) {
            Err(e) => Err(e),
            Ok((pl, q)) => prefixed(seq![pl], spec_player_list(s, q, n - 1)),
        }
    }
}

/// A players body at `p`: a count byte and that many records.
pub open spec fn spec_players_body(s: Seq<u8>, p: int) -> Result<Seq<(u8, Seq<char>, i32, u32)>, DecodeError> {
    match spec_read_u8(s, p) {
        Err(e) => Err(e),
        Ok((n, q)) => spec_player_list(s, q, n as int),
    }
}

/// The fields of an info reply that are decoded.
pub struct InfoModel {
    pub protocol: u8,
    pub name: Seq<char>,
    pub map: Seq<char>,
    pub folder: Seq<char>,
    pub game: Seq<char>,
    pub app_id: u16,
    pub players: u8,
    pub max_players: u8,
    pub bots: u8,
}

/// An info body at `p`: protocol byte, server name, map, folder and game
/// strings, application id, then player, maximum-player and bot counts.
/// What follows is left unread.
pub open spec fn spec_info_body(s: Seq<u8>, p: int) -> Result<InfoModel, DecodeError> {
    match spec_read_u8(s, p) {
        Err(e) => Err(e),
        Ok((protocol, p1)) => match spec_read_str(s, p1) {
            Err(e) => Err(e),
            Ok((name, p2)) => match spec_read_str(s, p2) {
                Err(e) => Err(e),
                Ok((map, p3)) => match spec_read_str(s, p3) {
                    Err(e) => Err(e),
                    Ok((folder, p4)) => match spec_read_str(s, p4) {
                        Err(e) => Err(e),
                        Ok((game, p5)) => match spec_read_u16(s, p5) {
                            Err(e) => Err(e),
                            Ok((app_id, p6)) => match spec_read_bytes(s, p6, 3) {
                                Err(e) => Err(e),
                                Ok((counts, _)) => Ok(
                                    InfoModel {
                                        protocol,
                                        name,
                                        map,
                                        folder,
                                        game,
                                        app_id,
                                        players: counts[0],
                                        max_players: counts[1],
                                        bots: counts[2],
                                    },
                                ),
                            },
                        },
                    },
                },
            },
        },
    }
}

/// What a reply decodes to, without its bytes.
pub enum PacketModel {
    Unknown,
    Info(InfoModel),
    Rules(Seq<(u32, Seq<char>)>),
    Players(Seq<(u8, Seq<char>, i32, u32)>),
    Challenge(Seq<u8>),
}

/// Whether the five bytes at `p` are the reply marker and the type byte `t`.
pub open spec fn has_header(s: Seq<u8>, p: int, t: u8) -> bool {
    0 <= p && p + 5 <= s.len() && s[p] == 0xFF && s[p + 1] == 0xFF && s[p + 2] == 0xFF
        && s[p + 3] == 0xFF && s[p + 4] == t
}

/// What the reply at `p` decodes to: the five header bytes pick the parser
/// for the rest, and any header but the four known ones gives `Unknown`.
#[verifier::opaque]
pub open spec fn spec_decode(s: Seq<u8>, p: int) -> Result<PacketModel, DecodeError> {
    if !(0 <= p && p + 5 <= s.len()) {
        Err(DecodeError::ShortRead)
    } else if has_header(s, p, TYPE_INFO) {
        match spec_info_body(s, p + 5) {
            Ok(m) => Ok(PacketModel::Info(m)),
            Err(e) => Err(e),
        }
    } else if has_header(s, p, TYPE_RULES) {
        match spec_rules_body(s, p + 5) {
            Ok(m) => Ok(PacketModel::Rules(m)),
            Err(e) => Err(e),
        }
    } else if has_header(s, p, TYPE_PLAYERS) {
        match spec_players_body(s, p + 5) {
            Ok(m) => Ok(PacketModel::Players(m)),
            Err(e) => Err(e),
        }
    } else if has_header(s, p, TYPE_CHALLENGE) {
        match spec_read_bytes(s, p + 5, 4) {
            Ok((c, _)) => Ok(PacketModel::Challenge(c)),
            Err(e) => Err(e),
        }
    } else {
        Ok(PacketModel::Unknown)
    }
}

/// Reads one player record.
pub fn read_player(rd: &mut PacketBytes) -> (r: Result<Player, DecodeError>)
    ensures
        final(rd).data() == old(rd).data(),
        match spec_player(old(rd).data(), old(rd).pos()) {
            Ok((pl, q)) => r matches Ok(v) && player_view(v) == pl && final(rd).pos() == q,
            Err(e) => r matches Err(f) && f == e,
        },
{
    let index = rd.read_u8()?;
    let name = rd.read_str()?;
    let score = rd.read_i32()?;
    let duration_bits = rd.read_f32_bits()?;
    Ok(Player { index, name, score, duration_bits })
}

/// A decoded players reply.
#[allow(non_camel_case_types)]
pub struct Packet_Players {
    bytes: PacketBytes,
    player_count: u8,
    players: Vec<Player>,
}

impl Packet_Players {
    /// The bytes of the reply.
    pub closed spec fn raw(&self) -> Seq<u8> {
        self.bytes.data()
    }

    /// The players, in the order of the reply.
    pub closed spec fn players_model(&self) -> Seq<(u8, Seq<char>, i32, u32)> {
        players_view(self.players@)
    }

    /// The player count that the reply announced.
    pub closed spec fn count_model(&self) -> u8 {
        self.player_count
    }

    /// Decodes a players body from the position of `bytes`. A record cut
    /// short fails the whole body.
    pub fn decode(bytes: PacketBytes) -> (r: Result<Packet_Players, DecodeError>)
        ensures
            match spec_players_body(bytes.data(), bytes.pos()) {
                Ok(m) => r matches Ok(p) && p.raw() == bytes.data() && p.players_model() == m
                    && p.count_model() == m.len(),
                Err(e) => r matches Err(f) && f == e,
            },
    {
        let ghost s = bytes.data();
        let mut rd = bytes;
        let player_count = rd.read_u8()?;
        let ghost p0 = rd.pos();
        let mut players: Vec<Player> = Vec::new();
        let mut k: u8 = 0;
        proof {
            assert(players_view(players@) =~= Seq::empty());
            match spec_player_list(s, p0, player_count as int) {
                Ok(t) => assert(Seq::<(u8, Seq<char>, i32, u32)>::empty() + t =~= t),
                Err(_) => {},
            }
        }
        while k < player_count
            invariant
                k <= player_count,
                players@.len() == k,
                s == bytes.data(),
                rd.data() == s,
                spec_players_body(s, bytes.pos()) == spec_player_list(s, p0, player_count as int),
                spec_player_list(s, p0, player_count as int) == prefixed(
                    players_view(players@),
                    spec_player_list(s, rd.pos(), (player_count - k) as int),
                ),
            decreases player_count - k,
        {
            let ghost before = players_view(players@);
            let ghost pk = rd.pos();
            let pl = match read_player(&mut rd) {
                Ok(v) => v,
                Err(e) => {
                    assert(spec_player_list(s, pk, (player_count - k) as int) == Err::<Seq<(u8, Seq<char>, i32, u32)>, DecodeError>(e));
                    return Err(e);
                },
            };
            let ghost pv = player_view(pl);
            players.push(pl);
            proof {
                assert(players_view(players@) =~= before + seq![pv]);
                match spec_player_list(s, rd.pos(), (player_count - k - 1) as int) {
                    Ok(rest) => assert(before + (seq![pv] + rest) =~= players_view(players@) + rest),
                    Err(_) => {},
                }
            }
            k = k + 1;
        }
        proof {
            assert(players_view(players@) + Seq::<(u8, Seq<char>, i32, u32)>::empty() =~= players_view(players@));
        }
        Ok(Packet_Players { bytes: rd, player_count, players })
    }

    /// The bytes of the reply.
    pub fn bytes(&self) -> (r: &PacketBytes)
        ensures
            r.data() == self.raw(),
    {
        &self.bytes
    }

    /// The player count that the reply announced.
    pub fn player_count(&self) -> (r: u8)
        ensures
            r == self.count_model(),
    {
        self.player_count
    }

    /// The players, in the order of the reply.
    pub fn players(&self) -> (r: &Vec<Player>)
        ensures
            players_view(r@) == self.players_model(),
    {
        &self.players
    }
}

/// A decoded info reply.
#[allow(non_camel_case_types)]
pub struct Packet_Info {
    bytes: PacketBytes,
    protocol: u8,
    name: String,
    map: String,
    folder: String,
    game: String,
    app_id: u16,
    players: u8,
    max_players: u8,
    bots: u8,
}

impl Packet_Info {
    /// The bytes of the reply.
    pub closed spec fn raw(&self) -> Seq<u8> {
        self.bytes.data()
    }

    /// The decoded fields.
    pub closed spec fn model(&self) -> InfoModel {
        InfoModel {
            protocol: self.protocol,
            name: self.name@,
            map: self.map@,
            folder: self.folder@,
            game: self.game@,
            app_id: self.app_id,
            players: self.players,
            max_players: self.max_players,
            bots: self.bots,
        }
    }

    /// Decodes an info body from the position of `bytes`, up to the bot
    /// count; whatever follows stays in the bytes unread.
    pub fn decode(bytes: PacketBytes) -> (r: Result<Packet_Info, DecodeError>)
        ensures
            match spec_info_body(bytes.data(), bytes.pos()) {
                Ok(m) => r matches Ok(p) && p.raw() == bytes.data() && p.model() == m,
                Err(e) => r matches Err(f) && f == e,
            },
    {
        let mut rd = bytes;
        let protocol = rd.read_u8()?;
        let name = rd.read_str()?;
        let map = rd.read_str()?;
        let folder = rd.read_str()?;
        let game = rd.read_str()?;
        let app_id = rd.read_u16()?;
        let players = rd.read_u8()?;
        let max_players = rd.read_u8()?;
        let bots = rd.read_u8()?;
        Ok(Packet_Info { bytes: rd, protocol, name, map, folder, game, app_id, players, max_players, bots })
    }

    /// The bytes of the reply.
    pub fn bytes(&self) -> (r: &PacketBytes)
        ensures
            r.data() == self.raw(),
    {
        &self.bytes
    }

    /// The number of players on the server.
    pub fn players(&self) -> (r: &u8)
        ensures
            *r == self.model().players,
    {
        &self.players
    }

    /// The protocol version.
    pub fn protocol(&self) -> (r: u8)
        ensures
            r == self.model().protocol,
    {
        self.protocol
    }

    /// The server's name.
    pub fn name(&self) -> (r: &String)
        ensures
            r@ == self.model().name,
    {
        &self.name
    }

    /// The current map.
    pub fn map(&self) -> (r: &String)
        ensures
            r@ == self.model().map,
    {
        &self.map
    }

    /// The game's folder.
    pub fn folder(&self) -> (r: &String)
        ensures
            r@ == self.model().folder,
    {
        &self.folder
    }

    /// The game's full name.
    pub fn game(&self) -> (r: &String)
        ensures
            r@ == self.model().game,
    {
        &self.game
    }

    /// The application id of the game.
    pub fn app_id(&self) -> (r: u16)
        ensures
            r == self.model().app_id,
    {
        self.app_id
    }

    /// The maximum number of players.
    pub fn max_players(&self) -> (r: u8)
        ensures
            r == self.model().max_players,
    {
        self.max_players
    }

    /// The number of bots.
    pub fn bots(&self) -> (r: u8)
        ensures
            r == self.model().bots,
    {
        self.bots
    }
}

/// A decoded challenge reply.
#[allow(non_camel_case_types)]
pub struct Packet_Challenge {
    bytes: PacketBytes,
    challenge: Vec<u8>,
}

impl Packet_Challenge {
    /// The bytes of the reply.
    pub closed spec fn raw(&self) -> Seq<u8> {
        self.bytes.data()
    }

    /// The four challenge bytes, as they came.
    pub closed spec fn challenge_model(&self) -> Seq<u8> {
        self.challenge@
    }

    /// Decodes a challenge body from the position of `bytes`: four opaque
    /// bytes.
    pub fn decode(bytes: PacketBytes) -> (r: Result<Packet_Challenge, DecodeError>)
        ensures
            match spec_read_bytes(bytes.data(), bytes.pos(), 4) {
                Ok((c, _)) => r matches Ok(p) && p.raw() == bytes.data() && p.challenge_model() == c,
                Err(e) => r matches Err(f) && f == e,
            },
    {
        let mut rd = bytes;
        let challenge = rd.read_bytes(4)?;
        Ok(Packet_Challenge { bytes: rd, challenge })
    }

    /// The bytes of the reply.
    pub fn bytes(&self) -> (r: &PacketBytes)
        ensures
            r.data() == self.raw(),
    {
        &self.bytes
    }

    /// The challenge to send back.
    pub fn challenge(&self) -> (r: &[u8])
        ensures
            r@ == self.challenge_model(),
    {
        self.challenge.as_slice()
    }
}

/// A decoded reply.
pub enum Packet {
    Unknown(PacketBytes),
    Info(Packet_Info),
    Rules(Packet_Rules),
    Players(Packet_Players),
    Challenge(Packet_Challenge),
}

impl Packet {
    /// The bytes of the reply.
    pub open spec fn raw(&self) -> Seq<u8> {
        match self {
            Packet::Unknown(b) => b.data(),
            Packet::Info(p) => p.raw(),
            Packet::Rules(p) => p.raw(),
            Packet::Players(p) => p.raw(),
            Packet::Challenge(p) => p.raw(),
        }
    }

    /// What the reply decoded to.
    pub open spec fn model(&self) -> PacketModel {
        match self {
            Packet::Unknown(_) => PacketModel::Unknown,
            Packet::Info(p) => PacketModel::Info(p.model()),
            Packet::Rules(p) => PacketModel::Rules(p.mods_model()),
            Packet::Players(p) => PacketModel::Players(p.players_model()),
            Packet::Challenge(p) => PacketModel::Challenge(p.challenge_model()),
        }
    }

    /// Decodes the reply at the position of `bytes`: classifies it by its
    /// five header bytes and hands the rest to that type's parser. An
    /// unknown header keeps the bytes as they are.
    pub fn decode(bytes: PacketBytes) -> (r: Result<Packet, DecodeError>)
        ensures
            match spec_decode(bytes.data(), bytes.pos()) {
                Ok(m) => r matches Ok(p) && p.raw() == bytes.data() && p.model() == m,
                Err(e) => r matches Err(f) && f == e,
            },
    {
        reveal(spec_decode);
        let mut rd = bytes;
        let header = rd.read_bytes(5)?;
        let marked = header[0] == 0xFF && header[1] == 0xFF && header[2] == 0xFF && header[3] == 0xFF;
        if marked && header[4] == TYPE_INFO {
            Ok(Packet::Info(Packet_Info::decode(rd)?))
        } else if marked && header[4] == TYPE_RULES {
            Ok(Packet::Rules(Packet_Rules::decode(rd)?))
        } else if marked && header[4] == TYPE_PLAYERS {
            Ok(Packet::Players(Packet_Players::decode(rd)?))
        } else if marked && header[4] == TYPE_CHALLENGE {
            Ok(Packet::Challenge(Packet_Challenge::decode(rd)?))
        } else {
            Ok(Packet::Unknown(rd))
        }
    }

    /// The bytes of the reply.
    pub fn bytes(&self) -> (r: &PacketBytes)
        ensures
            r.data() == self.raw(),
    {
        match self {
            Packet::Unknown(b) => b,
            Packet::Info(p) => p.bytes(),
            Packet::Rules(p) => p.bytes(),
            Packet::Players(p) => p.bytes(),
            Packet::Challenge(p) => p.bytes(),
        }
    }
}

} // verus!
