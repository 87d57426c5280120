//! The decisions of a query: which request to send, and whether a reply
//! ends the query or asks for another attempt with a new challenge.

use vstd::prelude::*;
use crate::packet::{Packet, PacketModel};
use vstd::slice::slice_to_vec;

verus! {

/// How many times a query answers a challenge before it gives up and
/// returns the challenge reply itself.
pub const MAX_RETRIES: u8 = 3;

/// Which of the three queries is run.
#[derive(Debug, Clone, Copy, PartialEq, Eq, Structural)]
pub enum QueryKind {
    Info,
    Rules,
    Players,
}

/// The info request: the reply marker, `T` and "Source Engine Query" with its
/// terminating zero.
pub open spec fn info_request() -> Seq<u8> {
    seq![
        0xFFu8, 0xFF, 0xFF, 0xFF, 0x54, 0x53, 0x6F, 0x75, 0x72, 0x63, 0x65, 0x20, 0x45, 0x6E,
        0x67, 0x69, 0x6E, 0x65, 0x20, 0x51, 0x75, 0x65, 0x72, 0x79, 0x00,
    ]
}

/// The challenge sent on a first attempt.
pub open spec fn initial_challenge() -> Seq<u8> {
    seq![0xFFu8, 0xFF, 0xFF, 0xFF]
}

/// The request for `kind` that carries `challenge`; an info request carries
/// none.
pub open spec fn spec_request(kind: QueryKind, challenge: Seq<u8>) -> Seq<u8> {
    match kind {
        QueryKind::Info => info_request(),
        QueryKind::Rules => seq![0xFFu8, 0xFF, 0xFF, 0xFF, 0x56] + challenge,
        QueryKind::Players => seq![0xFFu8, 0xFF, 0xFF, 0xFF, 0x55] + challenge,
    }
}

/// The state of a query as the contracts see it.
pub struct QueryModel {
    pub kind: QueryKind,
    pub retries: u8,
    pub challenge: Seq<u8>,
}

/// A query before its first request.
pub open spec fn initial_query(kind: QueryKind) -> QueryModel {
    QueryModel { kind, retries: 0, challenge: initial_challenge() }
}

/// After `reply`, the state in which the query sends again, or `None` where
/// the reply ends it. Only a challenge answering a rules or players query
/// with retries left leads to another attempt, which echoes the challenge.
pub open spec fn next_query(q: QueryModel, reply: PacketModel) -> Option<QueryModel> {
    match reply {
        PacketModel::Challenge(c) => if q.kind != QueryKind::Info && q.retries < MAX_RETRIES {
            Some(QueryModel { kind: q.kind, retries: (q.retries + 1) as u8, challenge: c })
        } else {
            None
        },
        _ => None,
    }
}

/// A rules or players query answers three challenges in a row, each time
/// sending its request again with the challenge just received; a fourth
/// challenge ends the query and is handed back, with no fifth request.
/// An info query never answers a challenge.
pub proof fn lemma_challenge_retries(kind: QueryKind, c1: Seq<u8>, c2: Seq<u8>, c3: Seq<u8>, c4: Seq<u8>)
    ensures
        kind == QueryKind::Info ==> next_query(initial_query(kind), PacketModel::Challenge(c1)) is None,
        kind != QueryKind::Info ==> {
            let q1 = next_query(initial_query(kind), PacketModel::Challenge(c1));
            &&& q1 is Some
            &&& spec_request(kind, q1->0.challenge) == spec_request(kind, c1)
            &&& {
                let q2 = next_query(q1->0, PacketModel::Challenge(c2));
                &&& q2 is Some
                &&& spec_request(kind, q2->0.challenge) == spec_request(kind, c2)
                &&& {
                    let q3 = next_query(q2->0, PacketModel::Challenge(c3));
                    &&& q3 is Some
                    &&& spec_request(kind, q3->0.challenge) == spec_request(kind, c3)
                    &&& q3->0.kind == kind
                    &&& next_query(q3->0, PacketModel::Challenge(c4)) is None
                }
            }
        },
{
}

/// Whatever the state, a reply that is no challenge ends the query.
pub proof fn lemma_non_challenge_ends(q: QueryModel, reply: PacketModel)
    requires
        !(reply is Challenge),
    ensures
        next_query(q, reply) is None,
{
}

/// A query in progress.
pub struct Query {
    kind: QueryKind,
    retries: u8,
    challenge: Vec<u8>,
}

impl Query {
    /// The state of the query.
    pub closed spec fn model(&self) -> QueryModel {
        QueryModel { kind: self.kind, retries: self.retries, challenge: self.challenge@ }
    }

    /// A query of `kind` that has sent nothing yet.
    pub fn new(kind: QueryKind) -> (r: Query)
        ensures
            r.model() == initial_query(kind),
    {
        let mut challenge: Vec<u8> = Vec::new();
        challenge.push(0xFF);
        challenge.push(0xFF);
        challenge.push(0xFF);
        challenge.push(0xFF);
        proof {
            assert(challenge@ =~= initial_challenge());
        }
        Query { kind, retries: 0, challenge }
    }

    /// The query's kind.
    pub fn kind(&self) -> (r: QueryKind)
        ensures
            r == self.model().kind,
    {
        self.kind
    }

    /// How many challenges have been answered.
    pub fn retries(&self) -> (r: u8)
        ensures
            r == self.model().retries,
    {
        self.retries
    }

    /// The request to send next.
    pub fn request(&self) -> (r: Vec<u8>)
        ensures
            r@ == spec_request(self.model().kind, self.model().challenge),
    {
        let mut out: Vec<u8> = Vec::new();
        out.push(0xFF);
        out.push(0xFF);
        out.push(0xFF);
        out.push(0xFF);
        match self.kind {
            QueryKind::Info => {
                let text: [u8; 20] = [
                    0x53, 0x6F, 0x75, 0x72, 0x63, 0x65, 0x20, 0x45, 0x6E, 0x67, 0x69, 0x6E, 0x65,
                    0x20, 0x51, 0x75, 0x65, 0x72, 0x79, 0x00,
                ];
                out.push(0x54);
                let mut i: usize = 0;
                while i < 20
                    invariant
                        i <= 20,
                        out@ =~= info_request().subrange(0, 5 + i as int),
                        text@ =~= info_request().subrange(5, 25),
                    decreases 20 - i,
                {
                    out.push(text[i]);
                    i = i + 1;
                }
            },
            QueryKind::Rules => {
                out.push(0x56);
                let mut c = self.challenge.clone();
                out.append(&mut c);
            },
            QueryKind::Players => {
                out.push(0x55);
                let mut c = self.challenge.clone();
                out.append(&mut c);
            },
        }
        proof {
            if self.kind != QueryKind::Info {
                assert(out@ =~= spec_request(self.kind, self.challenge@));
            }
        }
        out
    }

    /// Takes in a decoded reply. Returns `None` where the query must send
    /// its request again (a challenge came with retries left, and the query
    /// now carries it), and the reply itself where the query is over, a
    /// challenge reply included once the retries are spent.
    pub fn on_reply(&mut self, reply: Packet) -> (r: Option<Packet>)
        ensures
            match next_query(old(self).model(), reply.model()) {
                Some(q) => r is None && final(self).model() == q,
                None => r == Some(reply) && final(self).model() == old(self).model(),
            },
    {
        match reply {
            Packet::Challenge(c) => {
                if self.kind != QueryKind::Info && self.retries < MAX_RETRIES {
                    self.retries = self.retries + 1;
                    self.challenge = slice_to_vec(c.challenge());
                    None
                } else {
                    Some(Packet::Challenge(c))
                }
            },
            other => Some(other),
        }
    }
}

} // verus!
