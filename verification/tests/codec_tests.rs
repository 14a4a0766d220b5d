use gossip_node::codec::Connection;
use gossip_node::message::{Body, Message};

fn msg(src: &str, dest: &str, body: Body) -> Message {
    Message { src: src.to_string(), dest: dest.to_string(), body }
}

#[test]
fn broadcast_ok_has_the_exact_wire_form() {
    let line = Message::format_message(msg(
        "n1",
        "c1",
        Body::BroadcastOk { msg_id: 2, in_reply_to: 2 },
    ));
    assert_eq!(
        line,
        "{\"src\":\"n1\",\"dest\":\"c1\",\"body\":{\"type\":\"broadcast_ok\",\"msg_id\":2,\"in_reply_to\":2}}"
    );
}

#[test]
fn init_ok_and_error_have_the_exact_wire_form() {
    let line = Message::format_message(msg("n1", "c1", Body::InitOk { in_reply_to: 1 }));
    assert_eq!(
        line,
        "{\"src\":\"n1\",\"dest\":\"c1\",\"body\":{\"type\":\"init_ok\",\"in_reply_to\":1}}"
    );
    let line = Message::format_message(msg(
        "n1",
        "c1",
        Body::Error { in_reply_to: 9, code: 14, text: "no".to_string() },
    ));
    assert_eq!(
        line,
        "{\"src\":\"n1\",\"dest\":\"c1\",\"body\":{\"type\":\"error\",\"in_reply_to\":9,\"code\":14,\"text\":\"no\"}}"
    );
}

#[test]
fn gossip_lists_values_in_order() {
    let line = Message::format_message(msg("n1", "n2", Body::Gossip { messages: vec![1, 2, 3] }));
    assert_eq!(
        line,
        "{\"src\":\"n1\",\"dest\":\"n2\",\"body\":{\"type\":\"gossip\",\"messages\":[1,2,3]}}"
    );
    let line = Message::format_message(msg("n1", "n2", Body::GossipOk { messages: vec![] }));
    assert_eq!(
        line,
        "{\"src\":\"n1\",\"dest\":\"n2\",\"body\":{\"type\":\"gossip_ok\",\"messages\":[]}}"
    );
}

#[test]
fn decimal_rendering_handles_the_edges() {
    let line = Message::format_message(msg(
        "n1",
        "c1",
        Body::Broadcast { msg_id: 0, message: u64::MAX },
    ));
    assert_eq!(
        line,
        "{\"src\":\"n1\",\"dest\":\"c1\",\"body\":{\"type\":\"broadcast\",\"msg_id\":0,\"message\":18446744073709551615}}"
    );
}

#[test]
fn string_contents_are_escaped() {
    let line = Message::format_message(msg(
        "a\"b\\c",
        "d\ne",
        Body::Read { msg_id: 1 },
    ));
    assert_eq!(
        line,
        "{\"src\":\"a\\\"b\\\\c\",\"dest\":\"d\\ne\",\"body\":{\"type\":\"read\",\"msg_id\":1}}"
    );
}

#[test]
fn init_and_topology_have_the_exact_wire_form() {
    let line = Message::format_message(msg(
        "c1",
        "n1",
        Body::Init {
            msg_id: 1,
            node_id: "n1".to_string(),
            node_ids: vec!["n1".to_string(), "n2".to_string()],
        },
    ));
    assert_eq!(
        line,
        "{\"src\":\"c1\",\"dest\":\"n1\",\"body\":{\"type\":\"init\",\"msg_id\":1,\"node_id\":\"n1\",\"node_ids\":[\"n1\",\"n2\"]}}"
    );
    let line = Message::format_message(msg(
        "c1",
        "n1",
        Body::Topology {
            msg_id: 2,
            topology: vec![
                ("n1".to_string(), vec!["n2".to_string()]),
                ("n2".to_string(), vec!["n1".to_string()]),
            ],
        },
    ));
    assert_eq!(
        line,
        "{\"src\":\"c1\",\"dest\":\"n1\",\"body\":{\"type\":\"topology\",\"msg_id\":2,\"topology\":{\"n1\":[\"n2\"],\"n2\":[\"n1\"]}}}"
    );
}

#[test]
fn the_wire_form_is_json_a_parser_accepts() {
    let line = Message::format_message(msg(
        "n1",
        "c1",
        Body::ReadOk { msg_id: 3, in_reply_to: 3, messages: vec![5, 7] },
    ));
    let v: serde_json::Value = serde_json::from_str(&line).expect("the line must parse as JSON");
    assert_eq!(v["src"].as_str(), Some("n1"));
    assert_eq!(v["dest"].as_str(), Some("c1"));
    assert_eq!(v["body"]["type"].as_str(), Some("read_ok"));
    assert_eq!(v["body"]["msg_id"].as_u64(), Some(3));
    assert_eq!(v["body"]["in_reply_to"].as_u64(), Some(3));
    let vals: Vec<u64> = v["body"]["messages"]
        .as_array()
        .unwrap()
        .iter()
        .map(|x| x.as_u64().unwrap())
        .collect();
    assert_eq!(vals, vec![5, 7]);
}

#[test]
fn a_connection_queues_lines_in_write_order() {
    let mut conn = Connection::new();
    conn.write(msg("n1", "c1", Body::InitOk { in_reply_to: 1 }));
    conn.write(msg("n1", "c1", Body::Read { msg_id: 2 }));
    assert_eq!(conn.lines.len(), 2);
    assert!(conn.lines[0].contains("init_ok"));
    assert!(conn.lines[1].contains("\"type\":\"read\""));
}
