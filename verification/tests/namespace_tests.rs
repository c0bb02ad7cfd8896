use redis_viewer::namespace::{flatten, group, Namespace};

fn strings(items: &[&str]) -> Vec<String> {
    items.iter().map(|s| s.to_string()).collect()
}

fn sorted(mut items: Vec<String>) -> Vec<String> {
    items.sort();
    items
}

#[test]
fn round_trip_reproduces_input_set() {
    let keys = strings(&["a", "b:c", "b:d", "x:y:z", "plain"]);
    let root = group(&keys, ':');
    let flat = flatten(&root);
    assert_eq!(sorted(flat), sorted(keys));
}

#[test]
fn round_trip_empty_input() {
    let keys: Vec<String> = Vec::new();
    let root = group(&keys, ':');
    assert!(root.keys.is_empty());
    assert!(root.children.is_empty());
    let flat = flatten(&root);
    assert!(flat.is_empty());
}

#[test]
fn round_trip_keeps_duplicates() {
    let keys = strings(&["x", "x", "a:b", "a:b"]);
    let root = group(&keys, ':');
    let flat = flatten(&root);
    assert_eq!(sorted(flat), sorted(keys));
}

#[test]
fn key_without_separator_is_root_leaf() {
    let keys = strings(&["alone"]);
    let root = group(&keys, ':');
    assert_eq!(root.keys, strings(&["alone"]));
    assert!(root.children.is_empty());
}

#[test]
fn key_with_separator_sits_at_its_segment_path() {
    let keys = strings(&["a:b:c"]);
    let root = group(&keys, ':');
    assert!(root.keys.is_empty());
    assert_eq!(root.children.len(), 1);
    let a: &Namespace = &root.children[0];
    assert_eq!(a.prefix, "a");
    assert!(a.keys.is_empty());
    assert_eq!(a.children.len(), 1);
    let b = &a.children[0];
    assert_eq!(b.prefix, "b");
    assert!(b.keys.is_empty());
    assert_eq!(b.children.len(), 1);
    let c = &b.children[0];
    assert_eq!(c.prefix, "c");
    assert_eq!(c.keys, strings(&["a:b:c"]));
    assert!(c.children.is_empty());
}

#[test]
fn key_equal_to_prefix_of_another_coexists() {
    let keys = strings(&["a", "a:b"]);
    let root = group(&keys, ':');
    assert_eq!(root.keys, strings(&["a"]));
    assert_eq!(root.children.len(), 1);
    assert_eq!(root.children[0].prefix, "a");
    let flat = flatten(&root);
    assert_eq!(sorted(flat), sorted(keys));
}

#[test]
fn siblings_keep_first_seen_order() {
    let keys = strings(&["b:1", "a:2", "b:3"]);
    let root = group(&keys, ':');
    assert_eq!(root.children.len(), 2);
    assert_eq!(root.children[0].prefix, "b");
    assert_eq!(root.children[1].prefix, "a");
    let b = &root.children[0];
    assert_eq!(b.children.len(), 2);
    assert_eq!(b.children[0].prefix, "1");
    assert_eq!(b.children[1].prefix, "3");
    assert_eq!(b.children[0].keys, strings(&["b:1"]));
    assert_eq!(b.children[1].keys, strings(&["b:3"]));
}

#[test]
fn shared_prefixes_group_into_one_node() {
    let keys = strings(&["user:1", "user:2", "session:9"]);
    let root = group(&keys, ':');
    assert_eq!(root.children.len(), 2);
    assert_eq!(root.children[0].prefix, "user");
    assert_eq!(root.children[0].children.len(), 2);
    assert_eq!(root.children[1].prefix, "session");
    let flat = flatten(&root);
    assert_eq!(sorted(flat), sorted(keys));
}

#[test]
fn other_separator_character() {
    let keys = strings(&["a/b", "a:b"]);
    let root = group(&keys, '/');
    assert_eq!(root.keys, strings(&["a:b"]));
    assert_eq!(root.children.len(), 1);
    assert_eq!(root.children[0].prefix, "a");
    assert_eq!(root.children[0].children[0].keys, strings(&["a/b"]));
}

#[test]
fn empty_segments_are_grouped_too() {
    let keys = strings(&[":x", "x:"]);
    let root = group(&keys, ':');
    let flat = flatten(&root);
    assert_eq!(sorted(flat), sorted(keys));
    assert_eq!(root.children.len(), 2);
    assert_eq!(root.children[0].prefix, "");
    assert_eq!(root.children[1].prefix, "x");
}
