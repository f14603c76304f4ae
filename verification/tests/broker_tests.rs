use gstdots::broker::{Broker, Delivery, Input};
use gstdots::codec::{encode_message, WireMsg};
use gstdots::store::DotSnapshot;

fn snap(name: &str, content: &str, mtime_ms: u64) -> DotSnapshot {
    DotSnapshot {
        name: name.to_string(),
        content: content.to_string(),
        mtime_ms,
    }
}

fn new_dot_fields(d: &Delivery) -> (u64, String, String, u64) {
    match &d.message {
        WireMsg::NewDot { name, content, creation_time_ms } => {
            (d.client, name.clone(), content.clone(), *creation_time_ms)
        }
        WireMsg::DotRemoved { .. } => panic!("expected NewDot"),
    }
}

fn removed_fields(d: &Delivery) -> (u64, String, u64) {
    match &d.message {
        WireMsg::DotRemoved { name, creation_time_ms } => {
            (d.client, name.clone(), *creation_time_ms)
        }
        WireMsg::NewDot { .. } => panic!("expected DotRemoved"),
    }
}

#[test]
fn single_file_lifecycle() {
    let mut b = Broker::new();
    // client A joins an empty directory: nothing to replay
    let replay = b.step(Input::Join { client: 1, listing: Vec::new() });
    assert!(replay.is_empty());

    // p1.dot is written
    let out = b.step(Input::Appeared {
        name: "p1.dot".to_string(),
        content: Some("digraph G { a -> b }".to_string()),
        mtime_ms: 1111,
    });
    assert_eq!(out.len(), 1);
    assert_eq!(
        new_dot_fields(&out[0]),
        (1, "p1.dot".to_string(), "digraph G { a -> b }".to_string(), 1111)
    );
    assert_eq!(
        encode_message(&out[0].message).0,
        "{\"type\":\"NewDot\",\"name\":\"p1.dot\",\"content\":\"digraph G { a -> b }\",\"creation_time\":1111}"
    );

    // p1.dot is removed
    let out = b.step(Input::Vanished { name: "p1.dot".to_string(), mtime_ms: 0 });
    assert_eq!(out.len(), 1);
    assert_eq!(removed_fields(&out[0]), (1, "p1.dot".to_string(), 0));
}

#[test]
fn late_join_replays_in_mtime_order() {
    let mut b = Broker::new();
    // listing handed over unsorted; T2 > T1
    let listing = vec![snap("b.dot", "B", 200), snap("a.dot", "A", 100)];
    let replay = b.step(Input::Join { client: 5, listing });
    assert_eq!(replay.len(), 2);
    assert_eq!(new_dot_fields(&replay[0]), (5, "a.dot".to_string(), "A".to_string(), 100));
    assert_eq!(new_dot_fields(&replay[1]), (5, "b.dot".to_string(), "B".to_string(), 200));
}

#[test]
fn replay_ties_break_by_name() {
    let mut b = Broker::new();
    let listing = vec![snap("z.dot", "Z", 100), snap("a.dot", "A", 100)];
    let replay = b.step(Input::Join { client: 2, listing });
    assert_eq!(replay.len(), 2);
    assert_eq!(new_dot_fields(&replay[0]).1, "a.dot");
    assert_eq!(new_dot_fields(&replay[1]).1, "z.dot");
}

#[test]
fn replay_skips_empty_and_joining_is_registered_once() {
    let mut b = Broker::new();
    let listing = vec![snap("empty.dot", "", 50), snap("full.dot", "F", 60)];
    let replay = b.step(Input::Join { client: 9, listing });
    assert_eq!(replay.len(), 1);
    assert_eq!(new_dot_fields(&replay[0]).1, "full.dot");

    // joining again does not duplicate the handle
    let replay = b.step(Input::Join { client: 9, listing: Vec::new() });
    assert!(replay.is_empty());
    assert_eq!(b.clients_snapshot(), vec![9]);
}

#[test]
fn empty_file_suppressed_then_content_delivered() {
    let mut b = Broker::new();
    b.step(Input::Join { client: 1, listing: Vec::new() });

    let out = b.step(Input::Appeared {
        name: "empty.dot".to_string(),
        content: Some(String::new()),
        mtime_ms: 10,
    });
    assert!(out.is_empty());

    let out = b.step(Input::Appeared {
        name: "empty.dot".to_string(),
        content: Some("digraph {}".to_string()),
        mtime_ms: 11,
    });
    assert_eq!(out.len(), 1);
    assert_eq!(
        new_dot_fields(&out[0]),
        (1, "empty.dot".to_string(), "digraph {}".to_string(), 11)
    );
}

#[test]
fn unreadable_file_suppressed() {
    let mut b = Broker::new();
    b.step(Input::Join { client: 1, listing: Vec::new() });
    let out = b.step(Input::Appeared {
        name: "gone.dot".to_string(),
        content: None,
        mtime_ms: 0,
    });
    assert!(out.is_empty());
}

#[test]
fn fan_out_reaches_every_client_in_order() {
    let mut b = Broker::new();
    b.step(Input::Join { client: 1, listing: Vec::new() });
    b.step(Input::Join { client: 2, listing: Vec::new() });

    let out = b.step(Input::Appeared {
        name: "x.dot".to_string(),
        content: Some("X".to_string()),
        mtime_ms: 7,
    });
    assert_eq!(out.len(), 2);
    assert_eq!(new_dot_fields(&out[0]), (1, "x.dot".to_string(), "X".to_string(), 7));
    assert_eq!(new_dot_fields(&out[1]), (2, "x.dot".to_string(), "X".to_string(), 7));
}

#[test]
fn nested_relative_name_on_the_wire() {
    let root = "/tmp/dots";
    let abs = "/tmp/dots/sub/dir/y.dot";
    let name = gstdots::paths::relative_path(root, abs).unwrap();

    let mut b = Broker::new();
    b.step(Input::Join { client: 1, listing: Vec::new() });
    let out = b.step(Input::Appeared {
        name,
        content: Some("digraph {}".to_string()),
        mtime_ms: 4,
    });
    assert_eq!(out.len(), 1);
    let frame = encode_message(&out[0].message);
    let v: serde_json::Value = serde_json::from_str(&frame.0).unwrap();
    assert_eq!(v["name"].as_str().unwrap(), "sub/dir/y.dot");
}

#[test]
fn join_race_misses_nothing() {
    let mut b = Broker::new();
    // z.dot is being written rapidly; A joins in between. The join replay is
    // built from the filesystem state at register time, so A is owed at least
    // one NewDot for z.dot; a following steady-state event may duplicate it.
    let out = b.step(Input::Appeared {
        name: "z.dot".to_string(),
        content: Some("v1".to_string()),
        mtime_ms: 1,
    });
    assert!(out.is_empty()); // nobody registered yet

    let replay = b.step(Input::Join {
        client: 1,
        listing: vec![snap("z.dot", "v1", 1)],
    });
    let out = b.step(Input::Appeared {
        name: "z.dot".to_string(),
        content: Some("v2".to_string()),
        mtime_ms: 2,
    });
    let all: Vec<&Delivery> = replay.iter().chain(out.iter()).collect();
    let z_count = all
        .iter()
        .filter(|d| d.client == 1 && matches!(&d.message, WireMsg::NewDot { name, .. } if name == "z.dot"))
        .count();
    assert!(z_count >= 1);
}

#[test]
fn nothing_delivered_after_leave() {
    let mut b = Broker::new();
    b.step(Input::Join { client: 1, listing: Vec::new() });
    b.step(Input::Join { client: 2, listing: Vec::new() });
    let out = b.step(Input::Leave { client: 1 });
    assert!(out.is_empty());

    let out = b.step(Input::Appeared {
        name: "a.dot".to_string(),
        content: Some("A".to_string()),
        mtime_ms: 1,
    });
    assert_eq!(out.len(), 1);
    assert_eq!(out[0].client, 2);
    let out = b.step(Input::Vanished { name: "a.dot".to_string(), mtime_ms: 0 });
    assert_eq!(out.len(), 1);
    assert_eq!(out[0].client, 2);
}

#[test]
fn same_content_twice_yields_identical_name_and_content() {
    let mut b = Broker::new();
    b.step(Input::Join { client: 1, listing: Vec::new() });
    let first = b.step(Input::Appeared {
        name: "p.dot".to_string(),
        content: Some("same".to_string()),
        mtime_ms: 10,
    });
    let second = b.step(Input::Appeared {
        name: "p.dot".to_string(),
        content: Some("same".to_string()),
        mtime_ms: 20,
    });
    let (c1, n1, co1, _) = new_dot_fields(&first[0]);
    let (c2, n2, co2, _) = new_dot_fields(&second[0]);
    assert_eq!((c1, &n1, &co1), (c2, &n2, &co2));
}

#[test]
fn removed_then_recreated_keeps_order() {
    let mut b = Broker::new();
    b.step(Input::Join { client: 1, listing: Vec::new() });
    let gone = b.step(Input::Vanished { name: "p.dot".to_string(), mtime_ms: 0 });
    let back = b.step(Input::Appeared {
        name: "p.dot".to_string(),
        content: Some("again".to_string()),
        mtime_ms: 30,
    });
    assert!(matches!(&gone[0].message, WireMsg::DotRemoved { .. }));
    assert!(matches!(&back[0].message, WireMsg::NewDot { .. }));
}
