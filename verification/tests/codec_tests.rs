use gstdots::codec::{append_dec, append_json_string, encode_message, WireMsg};

fn new_dot(name: &str, content: &str, t: u64) -> WireMsg {
    WireMsg::NewDot {
        name: name.to_string(),
        content: content.to_string(),
        creation_time_ms: t,
    }
}

fn dot_removed(name: &str, t: u64) -> WireMsg {
    WireMsg::DotRemoved { name: name.to_string(), creation_time_ms: t }
}

#[test]
fn new_dot_frame_exact() {
    let m = new_dot("p1.dot", "digraph G { a -> b }", 12345);
    let frame = encode_message(&m);
    assert_eq!(
        frame.0,
        "{\"type\":\"NewDot\",\"name\":\"p1.dot\",\"content\":\"digraph G { a -> b }\",\"creation_time\":12345}"
    );
}

#[test]
fn dot_removed_frame_exact() {
    let m = dot_removed("sub/dir/y.dot", 0);
    let frame = encode_message(&m);
    assert_eq!(
        frame.0,
        "{\"type\":\"DotRemoved\",\"name\":\"sub/dir/y.dot\",\"creation_time\":0}"
    );
}

#[test]
fn escapes_quotes_and_backslashes() {
    let m = new_dot("a.dot", "label=\"x\\y\"", 1);
    let frame = encode_message(&m);
    assert_eq!(
        frame.0,
        "{\"type\":\"NewDot\",\"name\":\"a.dot\",\"content\":\"label=\\\"x\\\\y\\\"\",\"creation_time\":1}"
    );
}

#[test]
fn escapes_control_characters() {
    let m = new_dot("a.dot", "l1\nl2\tl3\r\u{08}\u{0c}\u{01}\u{1f}", 2);
    let frame = encode_message(&m);
    assert_eq!(
        frame.0,
        "{\"type\":\"NewDot\",\"name\":\"a.dot\",\"content\":\"l1\\nl2\\tl3\\r\\b\\f\\u0001\\u001f\",\"creation_time\":2}"
    );
}

#[test]
fn non_ascii_passes_through() {
    let m = new_dot("gr\u{e4}ph.dot", "digraph \u{2192} {}", 3);
    let frame = encode_message(&m);
    assert_eq!(
        frame.0,
        "{\"type\":\"NewDot\",\"name\":\"gr\u{e4}ph.dot\",\"content\":\"digraph \u{2192} {}\",\"creation_time\":3}"
    );
}

#[test]
fn frames_parse_as_json() {
    let m = new_dot("sub/x.dot", "digraph \"q\" {\n}", 9876543210);
    let frame = encode_message(&m);
    let v: serde_json::Value = serde_json::from_str(&frame.0).unwrap();
    assert_eq!(v["type"].as_str().unwrap(), "NewDot");
    assert_eq!(v["name"].as_str().unwrap(), "sub/x.dot");
    assert_eq!(v["content"].as_str().unwrap(), "digraph \"q\" {\n}");
    assert_eq!(v["creation_time"].as_u64().unwrap(), 9876543210);

    let m = dot_removed("sub/x.dot", 42);
    let frame = encode_message(&m);
    let v: serde_json::Value = serde_json::from_str(&frame.0).unwrap();
    assert_eq!(v["type"].as_str().unwrap(), "DotRemoved");
    assert_eq!(v["name"].as_str().unwrap(), "sub/x.dot");
    assert_eq!(v["creation_time"].as_u64().unwrap(), 42);
}

#[test]
fn decimal_rendering() {
    let cases: Vec<(u64, &str)> = vec![
        (0, "0"),
        (7, "7"),
        (10, "10"),
        (120034, "120034"),
        (u64::MAX, "18446744073709551615"),
    ];
    for (n, expect) in cases {
        let mut s = String::new();
        append_dec(&mut s, n);
        assert_eq!(s, expect);
    }
}

#[test]
fn json_string_of_empty() {
    let mut s = String::new();
    append_json_string(&mut s, "");
    assert_eq!(s, "\"\"");
}
