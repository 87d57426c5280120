use a2s_query::packet::Packet;
use a2s_query::query::{Query, QueryKind};
use a2s_query::reader::PacketBytes;

fn challenge(c: [u8; 4]) -> Packet {
    let mut bytes = vec![0xFF, 0xFF, 0xFF, 0xFF, 0x41];
    bytes.extend_from_slice(&c);
    Packet::decode(PacketBytes::new(bytes)).unwrap()
}

#[test]
fn info_request_template() {
    let q = Query::new(QueryKind::Info);
    let mut expected = vec![0xFF, 0xFF, 0xFF, 0xFF, 0x54];
    expected.extend_from_slice(b"Source Engine Query\0");
    assert_eq!(q.request(), expected);
    assert_eq!(q.request().len(), 25);
}

#[test]
fn first_requests_carry_sentinel() {
    assert_eq!(
        Query::new(QueryKind::Rules).request(),
        vec![0xFF, 0xFF, 0xFF, 0xFF, 0x56, 0xFF, 0xFF, 0xFF, 0xFF]
    );
    assert_eq!(
        Query::new(QueryKind::Players).request(),
        vec![0xFF, 0xFF, 0xFF, 0xFF, 0x55, 0xFF, 0xFF, 0xFF, 0xFF]
    );
}

#[test]
fn three_retries_then_challenge_returned() {
    let mut q = Query::new(QueryKind::Rules);
    for (n, c) in [[1, 2, 3, 4], [5, 6, 7, 8], [9, 10, 11, 12]].iter().enumerate() {
        assert!(q.on_reply(challenge(*c)).is_none());
        let mut expected = vec![0xFF, 0xFF, 0xFF, 0xFF, 0x56];
        expected.extend_from_slice(c);
        assert_eq!(q.request(), expected);
        assert_eq!(q.retries() as usize, n + 1);
    }
    match q.on_reply(challenge([13, 14, 15, 16])) {
        Some(Packet::Challenge(c)) => assert_eq!(c.challenge(), &[13, 14, 15, 16]),
        _ => panic!("the fourth challenge must be handed back"),
    }
    assert_eq!(q.retries(), 3);
}

#[test]
fn players_challenge_echoed() {
    let mut q = Query::new(QueryKind::Players);
    assert!(q.on_reply(challenge([0xAA, 0x00, 0xFF, 0x01])).is_none());
    assert_eq!(q.request(), vec![0xFF, 0xFF, 0xFF, 0xFF, 0x55, 0xAA, 0x00, 0xFF, 0x01]);
}

#[test]
fn info_query_does_not_retry() {
    let mut q = Query::new(QueryKind::Info);
    assert!(matches!(q.on_reply(challenge([1, 2, 3, 4])), Some(Packet::Challenge(_))));
    assert_eq!(q.retries(), 0);
}

#[test]
fn other_reply_ends_query() {
    let mut q = Query::new(QueryKind::Players);
    let reply = Packet::decode(PacketBytes::new(vec![0xFF, 0xFF, 0xFF, 0xFF, 0x44, 0])).unwrap();
    assert!(matches!(q.on_reply(reply), Some(Packet::Players(_))));
    assert_eq!(q.kind(), QueryKind::Players);
}
