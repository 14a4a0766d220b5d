use gossip_node::codec::Connection;
use gossip_node::message::{Body, Message};

fn msg(src: &str, dest: &str, body: Body) -> Message {
    Message { src: src.to_string(), dest: dest.to_string(), body }
}

fn assert_round_trip(m: Message) {
    let line = Message::format_message(m);
    let back = Connection::read_one(&line).expect("an encoded envelope must decode");
    let again = Message::format_message(back);
    assert_eq!(line, again);
}

#[test]
fn every_body_kind_survives_a_round_trip() {
    assert_round_trip(msg(
        "n1",
        "c1",
        Body::Error { in_reply_to: 9, code: 14, text: "no such node".to_string() },
    ));
    assert_round_trip(msg(
        "c1",
        "n1",
        Body::Init {
            msg_id: 1,
            node_id: "n1".to_string(),
            node_ids: vec!["n1".to_string(), "n2".to_string()],
        },
    ));
    assert_round_trip(msg("n1", "c1", Body::InitOk { in_reply_to: 1 }));
    assert_round_trip(msg("c1", "n1", Body::Broadcast { msg_id: 2, message: 5 }));
    assert_round_trip(msg("n1", "c1", Body::BroadcastOk { msg_id: 2, in_reply_to: 2 }));
    assert_round_trip(msg("c1", "n1", Body::Read { msg_id: 3 }));
    assert_round_trip(msg(
        "n1",
        "c1",
        Body::ReadOk { msg_id: 3, in_reply_to: 3, messages: vec![5, 7, 9] },
    ));
    assert_round_trip(msg(
        "c1",
        "n1",
        Body::Topology {
            msg_id: 4,
            topology: vec![
                ("n1".to_string(), vec!["n2".to_string()]),
                ("n2".to_string(), vec!["n1".to_string()]),
            ],
        },
    ));
    assert_round_trip(msg("n1", "c1", Body::TopologyOk { msg_id: 4, in_reply_to: 4 }));
    assert_round_trip(msg("n1", "n2", Body::Gossip { messages: vec![7, 8] }));
    assert_round_trip(msg("n2", "n1", Body::GossipOk { messages: vec![] }));
}

#[test]
fn escaped_strings_survive_a_round_trip() {
    let m = msg("a\"b\\c", "d\ne\tf", Body::Error {
        in_reply_to: 1,
        code: 2,
        text: "line\r\nbreak / slash".to_string(),
    });
    let line = Message::format_message(m);
    let back = Connection::read_one(&line).expect("the escaped envelope must decode");
    assert_eq!(back.src, "a\"b\\c");
    assert_eq!(back.dest, "d\ne\tf");
    match back.body {
        Body::Error { text, .. } => assert_eq!(text, "line\r\nbreak / slash"),
        _ => panic!("the body kind changed in flight"),
    }
}

#[test]
fn members_may_come_in_any_order_with_whitespace() {
    let line = " { \"body\" : { \"message\" : 5 , \"type\" : \"broadcast\" , \"msg_id\" : 2 } , \
                \"dest\" : \"n1\" , \"src\" : \"c1\" } ";
    let m = Connection::read_one(line).expect("a reordered envelope must decode");
    assert_eq!(m.src, "c1");
    assert_eq!(m.dest, "n1");
    assert!(matches!(m.body, Body::Broadcast { msg_id: 2, message: 5 }));
}

#[test]
fn a_malformed_line_decodes_to_nothing() {
    assert!(Connection::read_one("{not json").is_none());
    assert!(Connection::read_one("").is_none());
    assert!(Connection::read_one("   ").is_none());
    assert!(Connection::read_one("null").is_none());
    assert!(Connection::read_one("{\"src\":\"c1\",\"dest\":\"n1\"}").is_none());
    assert!(Connection::read_one(
        "{\"src\":\"c1\",\"dest\":\"n1\",\"body\":{\"type\":\"broadcast\",\"msg_id\":1}}"
    )
    .is_none());
    // Trailing text after the envelope is refused.
    assert!(Connection::read_one(
        "{\"src\":\"c1\",\"dest\":\"n1\",\"body\":{\"type\":\"read\",\"msg_id\":1}}x"
    )
    .is_none());
}

#[test]
fn repeated_and_unknown_members_are_refused() {
    assert!(Connection::read_one(
        "{\"src\":\"a\",\"src\":\"b\",\"dest\":\"n1\",\"body\":{\"type\":\"read\",\"msg_id\":1}}"
    )
    .is_none());
    assert!(Connection::read_one(
        "{\"src\":\"a\",\"dest\":\"n1\",\"extra\":1,\"body\":{\"type\":\"read\",\"msg_id\":1}}"
    )
    .is_none());
}

#[test]
fn numbers_at_the_edge_decode_and_beyond_it_are_refused() {
    let line = "{\"src\":\"c1\",\"dest\":\"n1\",\"body\":{\"type\":\"broadcast\",\"msg_id\":0,\
                \"message\":18446744073709551615}}";
    let m = Connection::read_one(line).expect("the largest value must decode");
    assert!(matches!(m.body, Body::Broadcast { msg_id: 0, message: u64::MAX }));
    let line = "{\"src\":\"c1\",\"dest\":\"n1\",\"body\":{\"type\":\"broadcast\",\"msg_id\":0,\
                \"message\":18446744073709551616}}";
    assert!(Connection::read_one(line).is_none());
}

#[test]
fn parse_message_reads_an_owned_line() {
    let line = "{\"src\":\"n2\",\"dest\":\"n1\",\"body\":{\"type\":\"gossip\",\"messages\":[7,8]}}";
    let m = Message::parse_message(line.to_string()).expect("the gossip line must decode");
    assert_eq!(m.src, "n2");
    match m.body {
        Body::Gossip { messages } => assert_eq!(messages, vec![7, 8]),
        _ => panic!("the body kind changed in flight"),
    }
}

#[test]
fn a_line_from_another_json_writer_decodes_too() {
    // Re-serializing through serde_json sorts the members differently;
    // the decoder must not care.
    let ours = Message::format_message(msg(
        "n1",
        "c1",
        Body::ReadOk { msg_id: 3, in_reply_to: 3, messages: vec![5, 7] },
    ));
    let value: serde_json::Value = serde_json::from_str(&ours).unwrap();
    let theirs = serde_json::to_string(&value).unwrap();
    let back = Connection::read_one(&theirs).expect("the re-serialized envelope must decode");
    assert_eq!(Message::format_message(back), ours);
}
