use redis_viewer::keys::split_key;
use redis_viewer::tree::{convert_keys_to_namespaces, NamespaceTree, RedisNamespace};

fn strings(v: &[&str]) -> Vec<String> {
    v.iter().map(|s| s.to_string()).collect()
}

fn find<'a>(ns: &'a [RedisNamespace], name: &str) -> Option<&'a RedisNamespace> {
    ns.iter().find(|n| n.name == name)
}

fn namespaces_equal(a: &[RedisNamespace], b: &[RedisNamespace]) -> bool {
    if a.len() != b.len() {
        return false;
    }
    a.iter().all(|na| match find(b, &na.name) {
        None => false,
        Some(nb) => {
            let mut ka = na.keys.clone();
            let mut kb = nb.keys.clone();
            ka.sort();
            kb.sort();
            ka == kb && namespaces_equal(&na.sub_namespaces, &nb.sub_namespaces)
        }
    })
}

fn trees_equal(a: &NamespaceTree, b: &NamespaceTree) -> bool {
    let mut ra = a.root_keys.clone();
    let mut rb = b.root_keys.clone();
    ra.sort();
    rb.sort();
    ra == rb && namespaces_equal(&a.namespaces, &b.namespaces)
}

#[test]
fn split_key_three_segments() {
    assert_eq!(split_key("a:b:c"), strings(&["a", "b", "c"]));
}

#[test]
fn split_key_no_delimiter() {
    assert_eq!(split_key("counter"), strings(&["counter"]));
}

#[test]
fn split_key_lone_delimiter() {
    assert_eq!(split_key(":"), strings(&["", ""]));
}

#[test]
fn split_key_empty() {
    assert_eq!(split_key(""), strings(&[""]));
}

#[test]
fn split_key_adjacent_delimiters() {
    assert_eq!(split_key("a::b"), strings(&["a", "", "b"]));
}

#[test]
fn build_groups_keys_into_tree() {
    let tree = convert_keys_to_namespaces(&strings(&["user:1:name", "user:1:age", "counter"]));

    assert_eq!(tree.root_keys, strings(&["counter"]));
    assert_eq!(tree.namespaces.len(), 1);

    let user = find(&tree.namespaces, "user").expect("node `user` missing");
    assert!(user.keys.is_empty());
    assert_eq!(user.sub_namespaces.len(), 1);

    let one = find(&user.sub_namespaces, "1").expect("node `1` missing");
    let mut leaves = one.keys.clone();
    leaves.sort();
    assert_eq!(leaves, strings(&["user:1:age", "user:1:name"]));
    assert!(one.sub_namespaces.is_empty());
}

#[test]
fn build_is_permutation_invariant() {
    let keys = &["user:1:name", "user:1:age", "counter", "a:b", "a:b:c", "a:"];
    let mut rev: Vec<&str> = keys.to_vec();
    rev.reverse();
    let t1 = convert_keys_to_namespaces(&strings(keys));
    let t2 = convert_keys_to_namespaces(&strings(&rev));
    assert!(trees_equal(&t1, &t2));
}

#[test]
fn build_deduplicates_keys() {
    let t1 = convert_keys_to_namespaces(&strings(&["a:b", "a:b", "c", "c"]));
    let t2 = convert_keys_to_namespaces(&strings(&["a:b", "c"]));
    assert!(trees_equal(&t1, &t2));
    let a = find(&t1.namespaces, "a").unwrap();
    assert_eq!(a.keys, strings(&["a:b"]));
    assert_eq!(t1.root_keys, strings(&["c"]));
}

#[test]
fn build_key_recorded_at_next_to_last_segment() {
    let tree = convert_keys_to_namespaces(&strings(&["a:b:c"]));
    let a = find(&tree.namespaces, "a").unwrap();
    assert!(a.keys.is_empty());
    let b = find(&a.sub_namespaces, "b").unwrap();
    assert_eq!(b.keys, strings(&["a:b:c"]));
    assert!(b.sub_namespaces.is_empty());
}

#[test]
fn build_trailing_delimiter_is_a_valid_segment() {
    let tree = convert_keys_to_namespaces(&strings(&["a:"]));
    let a = find(&tree.namespaces, "a").unwrap();
    assert_eq!(a.keys, strings(&["a:"]));
    assert!(tree.root_keys.is_empty());
}

#[test]
fn build_leading_delimiter_distinct_from_root() {
    let tree = convert_keys_to_namespaces(&strings(&[":", "x"]));
    assert_eq!(tree.root_keys, strings(&["x"]));
    let empty = find(&tree.namespaces, "").expect("empty-named namespace missing");
    assert_eq!(empty.keys, strings(&[":"]));
}

#[test]
fn build_shared_prefix_not_split_inconsistently() {
    let tree = convert_keys_to_namespaces(&strings(&["a:b", "a:b:c", "a:d"]));
    assert_eq!(tree.namespaces.len(), 1);
    let a = find(&tree.namespaces, "a").unwrap();
    let mut at_a = a.keys.clone();
    at_a.sort();
    assert_eq!(at_a, strings(&["a:b", "a:d"]));
    let b = find(&a.sub_namespaces, "b").unwrap();
    assert_eq!(b.keys, strings(&["a:b:c"]));
}

#[test]
fn add_key_to_namespaces_creates_chain() {
    let key = "x:y:z".to_string();
    let parts = split_key(&key);
    let mut namespaces: Vec<RedisNamespace> = Vec::new();
    redis_viewer::tree::add_key_to_namespaces(&key, &parts, &mut namespaces, 0);
    let x = find(&namespaces, "x").unwrap();
    let y = find(&x.sub_namespaces, "y").unwrap();
    assert_eq!(y.keys, vec!["x:y:z".to_string()]);
}
