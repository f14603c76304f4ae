use gstdots::watcher::{normalize_event, CoreEvent, RawKind};

fn paths(v: &[&str]) -> Vec<String> {
    v.iter().map(|s| s.to_string()).collect()
}

fn shapes(events: &[CoreEvent]) -> Vec<(bool, String)> {
    events
        .iter()
        .map(|e| match e {
            CoreEvent::Appeared { path } => (true, path.clone()),
            CoreEvent::Vanished { path } => (false, path.clone()),
        })
        .collect()
}

#[test]
fn content_change_becomes_appeared() {
    let out = normalize_event(RawKind::ContentModified, &paths(&["/d/a.dot"]));
    assert_eq!(shapes(&out), vec![(true, "/d/a.dot".to_string())]);
}

#[test]
fn removal_becomes_vanished() {
    let out = normalize_event(RawKind::Removed, &paths(&["/d/a.dot"]));
    assert_eq!(shapes(&out), vec![(false, "/d/a.dot".to_string())]);
}

#[test]
fn rename_decomposes() {
    let out = normalize_event(RawKind::Renamed, &paths(&["/d/old.dot", "/d/new.dot"]));
    assert_eq!(
        shapes(&out),
        vec![(false, "/d/old.dot".to_string()), (true, "/d/new.dot".to_string())]
    );
}

#[test]
fn rename_with_one_path_is_dropped() {
    let out = normalize_event(RawKind::Renamed, &paths(&["/d/old.dot"]));
    assert!(out.is_empty());
}

#[test]
fn other_kinds_ignored() {
    let out = normalize_event(RawKind::Other, &paths(&["/d/a.dot"]));
    assert!(out.is_empty());
}

#[test]
fn non_dot_paths_fully_ignored() {
    assert!(normalize_event(RawKind::ContentModified, &paths(&["/d/a.txt"])).is_empty());
    assert!(normalize_event(RawKind::Removed, &paths(&["/d/a.svg", "/d/b"])).is_empty());
    assert!(normalize_event(RawKind::Renamed, &paths(&["/d/a.txt", "/d/b.txt"])).is_empty());
}

#[test]
fn mixed_paths_keep_only_dot() {
    let out = normalize_event(
        RawKind::ContentModified,
        &paths(&["/d/a.txt", "/d/b.dot", "/d/c.log", "/d/d.dot"]),
    );
    assert_eq!(
        shapes(&out),
        vec![(true, "/d/b.dot".to_string()), (true, "/d/d.dot".to_string())]
    );
}

#[test]
fn rename_from_non_dot_to_dot() {
    let out = normalize_event(RawKind::Renamed, &paths(&["/d/a.tmp", "/d/a.dot"]));
    assert_eq!(shapes(&out), vec![(true, "/d/a.dot".to_string())]);
}
