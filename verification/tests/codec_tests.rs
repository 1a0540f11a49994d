use echo_node::codec::{encode_line, encode_message};
use echo_node::msg::{Body, Message, Payload};
use echo_node::node::{EchoNode, SeenValues};

fn envelope(
    src: &str,
    dst: &str,
    msg_id: Option<usize>,
    in_reply_to: Option<usize>,
    payload: Payload,
) -> Message {
    Message {
        src: String::from(src),
        dst: String::from(dst),
        body: Body { msg_id, in_reply_to, payload },
    }
}

#[test]
fn echo_end_to_end() {
    let mut node = EchoNode { id: 0 };
    let mut seen = SeenValues::new();
    let input = envelope("c1", "n1", Some(1), None, Payload::Echo { echo: String::from("hi") });
    let reply = node.step(input, &mut seen).unwrap().unwrap();
    assert_eq!(
        encode_line(&reply),
        "{\"src\":\"n1\",\"dest\":\"c1\",\"body\":{\"msg_id\":0,\"in_reply_to\":1,\"type\":\"echo_ok\",\"echo\":\"hi\"}}\n"
    );
}

#[test]
fn broadcast_then_read_end_to_end() {
    let mut node = EchoNode { id: 0 };
    let mut seen = SeenValues::new();
    let first = envelope("c1", "n1", Some(1), None, Payload::Broadcast { message: 5 });
    let reply = node.step(first, &mut seen).unwrap().unwrap();
    assert_eq!(
        encode_line(&reply),
        "{\"src\":\"n1\",\"dest\":\"c1\",\"body\":{\"msg_id\":0,\"in_reply_to\":1,\"type\":\"broadcast_ok\"}}\n"
    );
    let second = envelope("c1", "n1", Some(2), None, Payload::Read);
    let reply = node.step(second, &mut seen).unwrap().unwrap();
    let line = encode_line(&reply);
    assert!(line.contains("\"messages\":[5]"));
    assert_eq!(
        line,
        "{\"src\":\"n1\",\"dest\":\"c1\",\"body\":{\"msg_id\":1,\"in_reply_to\":2,\"type\":\"read_ok\",\"messages\":[5]}}\n"
    );
}

#[test]
fn omitted_ids_are_not_written() {
    let m = envelope("a", "b", None, None, Payload::Read);
    assert_eq!(
        encode_message(&m),
        "{\"src\":\"a\",\"dest\":\"b\",\"body\":{\"type\":\"read\"}}"
    );
}

#[test]
fn strings_are_escaped() {
    let m = envelope(
        "n1",
        "c1",
        Some(3),
        None,
        Payload::Echo { echo: String::from("a\"b\\c\nd\te\r\u{0008}\u{000c}\u{0001}é") },
    );
    assert_eq!(
        encode_message(&m),
        "{\"src\":\"n1\",\"dest\":\"c1\",\"body\":{\"msg_id\":3,\"type\":\"echo\",\"echo\":\"a\\\"b\\\\c\\nd\\te\\r\\b\\f\\u0001é\"}}"
    );
}

#[test]
fn escaped_output_parses_back() {
    let text = "quote \" slash \\ newline \n tab \t ctrl \u{0002} plain ü";
    let m = envelope("x", "y", Some(0), Some(9), Payload::Echo { echo: String::from(text) });
    let encoded = encode_message(&m);
    let value: serde_json::Value = serde_json::from_str(&encoded).unwrap();
    assert_eq!(value["src"], serde_json::Value::String(String::from("x")));
    assert_eq!(value["body"]["msg_id"], serde_json::Value::from(0u64));
    assert_eq!(value["body"]["in_reply_to"], serde_json::Value::from(9u64));
    assert_eq!(value["body"]["type"], serde_json::Value::String(String::from("echo")));
    assert_eq!(value["body"]["echo"], serde_json::Value::String(String::from(text)));
}

#[test]
fn numbers_cover_signs_and_bounds() {
    let m = envelope("a", "b", Some(usize::MAX), None, Payload::Broadcast { message: i32::MIN });
    assert_eq!(
        encode_message(&m),
        "{\"src\":\"a\",\"dest\":\"b\",\"body\":{\"msg_id\":18446744073709551615,\"type\":\"broadcast\",\"message\":-2147483648}}"
    );
    let m = envelope("a", "b", None, None, Payload::Broadcast { message: i32::MAX });
    assert_eq!(
        encode_message(&m),
        "{\"src\":\"a\",\"dest\":\"b\",\"body\":{\"type\":\"broadcast\",\"message\":2147483647}}"
    );
}

#[test]
fn init_and_arrays_encode_in_order() {
    let m = envelope(
        "c1",
        "n1",
        Some(1),
        None,
        Payload::Init {
            node_id: String::from("n1"),
            node_ids: vec![String::from("n1"), String::from("n2"), String::from("n3")],
        },
    );
    assert_eq!(
        encode_message(&m),
        "{\"src\":\"c1\",\"dest\":\"n1\",\"body\":{\"msg_id\":1,\"type\":\"init\",\"node_id\":\"n1\",\"node_ids\":[\"n1\",\"n2\",\"n3\"]}}"
    );
}

#[test]
fn read_ok_lists_values_in_insertion_order() {
    let m = envelope(
        "n1",
        "c1",
        Some(4),
        Some(2),
        Payload::ReadOk { messages: vec![5, -3, 11] },
    );
    assert_eq!(
        encode_message(&m),
        "{\"src\":\"n1\",\"dest\":\"c1\",\"body\":{\"msg_id\":4,\"in_reply_to\":2,\"type\":\"read_ok\",\"messages\":[5,-3,11]}}"
    );
    let m = envelope("n1", "c1", Some(4), Some(2), Payload::ReadOk { messages: vec![] });
    assert_eq!(
        encode_message(&m),
        "{\"src\":\"n1\",\"dest\":\"c1\",\"body\":{\"msg_id\":4,\"in_reply_to\":2,\"type\":\"read_ok\",\"messages\":[]}}"
    );
}

#[test]
fn topology_encodes_as_an_object() {
    let m = envelope(
        "c1",
        "n1",
        Some(1),
        None,
        Payload::Topology {
            topology: vec![
                (String::from("n1"), vec![String::from("n2"), String::from("n3")]),
                (String::from("n2"), vec![]),
            ],
        },
    );
    assert_eq!(
        encode_message(&m),
        "{\"src\":\"c1\",\"dest\":\"n1\",\"body\":{\"msg_id\":1,\"type\":\"topology\",\"topology\":{\"n1\":[\"n2\",\"n3\"],\"n2\":[]}}}"
    );
}

#[test]
fn empty_values_encode_cleanly() {
    let m = envelope("", "n1", None, None, Payload::Echo { echo: String::new() });
    assert_eq!(
        encode_message(&m),
        "{\"src\":\"\",\"dest\":\"n1\",\"body\":{\"type\":\"echo\",\"echo\":\"\"}}"
    );
    let m = envelope(
        "c1",
        "n1",
        None,
        None,
        Payload::Init { node_id: String::from("n1"), node_ids: vec![] },
    );
    assert_eq!(
        encode_message(&m),
        "{\"src\":\"c1\",\"dest\":\"n1\",\"body\":{\"type\":\"init\",\"node_id\":\"n1\",\"node_ids\":[]}}"
    );
    let m = envelope("c1", "n1", None, None, Payload::Topology { topology: vec![] });
    assert_eq!(
        encode_message(&m),
        "{\"src\":\"c1\",\"dest\":\"n1\",\"body\":{\"type\":\"topology\",\"topology\":{}}}"
    );
}

#[test]
fn generate_reply_encodes_its_identifier() {
    let mut node = EchoNode { id: 0 };
    let mut seen = SeenValues::new();
    let input = envelope("c1", "n1", Some(1), None, Payload::Generate);
    let reply = node
        .step_with_guid(input, String::from("01ARZ3NDEKTSV4RRFFQ69G5FAV"), &mut seen)
        .unwrap()
        .unwrap();
    assert_eq!(
        encode_line(&reply),
        "{\"src\":\"n1\",\"dest\":\"c1\",\"body\":{\"msg_id\":0,\"in_reply_to\":1,\"type\":\"generate_ok\",\"id\":\"01ARZ3NDEKTSV4RRFFQ69G5FAV\"}}\n"
    );
}
