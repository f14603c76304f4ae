use gstdots::store::{millis_from_parts, snapshot_le, sort_snapshots, str_le, DotSnapshot};

fn snap(name: &str, content: &str, mtime_ms: u64) -> DotSnapshot {
    DotSnapshot {
        name: name.to_string(),
        content: content.to_string(),
        mtime_ms,
    }
}

fn names(v: &[DotSnapshot]) -> Vec<String> {
    v.iter().map(|s| s.name.clone()).collect()
}

#[test]
fn sorts_by_mtime_ascending() {
    let listing = vec![snap("b.dot", "y", 200), snap("a.dot", "x", 100), snap("c.dot", "z", 150)];
    let sorted = sort_snapshots(listing);
    assert_eq!(names(&sorted), vec!["a.dot", "c.dot", "b.dot"]);
}

#[test]
fn ties_break_by_name() {
    let listing = vec![snap("z.dot", "1", 100), snap("a.dot", "2", 100), snap("m.dot", "3", 100)];
    let sorted = sort_snapshots(listing);
    assert_eq!(names(&sorted), vec!["a.dot", "m.dot", "z.dot"]);
}

#[test]
fn sort_keeps_every_entry() {
    let listing = vec![snap("a.dot", "1", 5), snap("a.dot", "2", 5), snap("b.dot", "3", 1)];
    let sorted = sort_snapshots(listing);
    assert_eq!(sorted.len(), 3);
    assert_eq!(names(&sorted), vec!["b.dot", "a.dot", "a.dot"]);
}

#[test]
fn string_order_is_lexicographic() {
    assert!(str_le("a", "b"));
    assert!(str_le("a", "a"));
    assert!(str_le("a", "ab"));
    assert!(!str_le("ab", "a"));
    assert!(str_le("a/b.dot", "a0b.dot")); // '/' < '0'
    assert!(!str_le("b", "a"));
}

#[test]
fn snapshot_order_mtime_first() {
    let a = snap("z.dot", "", 1);
    let b = snap("a.dot", "", 2);
    assert!(snapshot_le(&a, &b));
    assert!(!snapshot_le(&b, &a));
    let c = snap("a.dot", "", 1);
    assert!(snapshot_le(&c, &a));
    assert!(!snapshot_le(&a, &c));
}

#[test]
fn millis_exact() {
    assert_eq!(millis_from_parts(0, 0), 0);
    assert_eq!(millis_from_parts(1, 999_999_999), 1999);
    assert_eq!(millis_from_parts(1700000000, 5_000_000), 1700000000005);
}

#[test]
fn millis_saturates() {
    assert_eq!(millis_from_parts(u64::MAX, 0), u64::MAX);
    // 18446744073709551000 + 999 exceeds u64::MAX, so this saturates too
    assert_eq!(millis_from_parts(u64::MAX / 1000, 999_999_999), u64::MAX);
    assert_eq!(millis_from_parts(u64::MAX / 1000, 614_999_999), u64::MAX / 1000 * 1000 + 614);
}
