use redis_viewer::tree::convert_keys_to_namespaces;
use redis_viewer::view::{create_namespace_views, toggle, NamespaceView};

fn strings(v: &[&str]) -> Vec<String> {
    v.iter().map(|s| s.to_string()).collect()
}

fn views_for(keys: &[&str]) -> Vec<NamespaceView> {
    create_namespace_views(&convert_keys_to_namespaces(&strings(keys)))
}

fn all_collapsed(vs: &[NamespaceView]) -> bool {
    vs.iter().all(|v| !v.is_expanded && all_collapsed(&v.sub_namespaces))
}

#[test]
fn views_mirror_tree_with_root_last() {
    let vs = views_for(&["user:1:name", "counter"]);
    assert_eq!(vs.len(), 2);
    assert_eq!(vs[0].namespace, "user");
    assert!(vs[0].keys.is_empty());
    assert_eq!(vs[0].sub_namespaces.len(), 1);
    assert_eq!(vs[0].sub_namespaces[0].namespace, "1");
    assert_eq!(vs[0].sub_namespaces[0].keys, strings(&["user:1:name"]));
    let root = &vs[1];
    assert_eq!(root.namespace, "");
    assert_eq!(root.keys, strings(&["counter"]));
    assert!(root.sub_namespaces.is_empty());
}

#[test]
fn fresh_views_are_collapsed() {
    let vs = views_for(&["a:b:c", "a:d", "x"]);
    assert!(all_collapsed(&vs));
}

#[test]
fn toggle_expands_and_reports_success() {
    let mut vs = views_for(&["a:b", "x"]);
    assert!(toggle(&mut vs, &vec![0]));
    assert!(vs[0].is_expanded);
    assert!(!vs[1].is_expanded);
}

#[test]
fn toggle_twice_restores_view() {
    let mut vs = views_for(&["a:b:c", "x"]);
    assert!(toggle(&mut vs, &vec![0, 0]));
    assert!(vs[0].sub_namespaces[0].is_expanded);
    assert!(toggle(&mut vs, &vec![0, 0]));
    assert!(!vs[0].sub_namespaces[0].is_expanded);
    assert!(all_collapsed(&vs));
}

#[test]
fn toggle_out_of_range_is_reported_no_op() {
    let mut vs = views_for(&["a:b", "x"]);
    assert!(!toggle(&mut vs, &vec![5]));
    assert!(!toggle(&mut vs, &vec![0, 3]));
    assert!(!toggle(&mut vs, &vec![usize::MAX]));
    assert!(all_collapsed(&vs));
}

#[test]
fn toggle_empty_path_is_reported_no_op() {
    let mut vs = views_for(&["a:b"]);
    assert!(!toggle(&mut vs, &Vec::new()));
    assert!(all_collapsed(&vs));
}

#[test]
fn toggle_path_below_leaf_fails() {
    let mut vs = views_for(&["x"]);
    // the root view has no children, so any deeper path is stale
    assert!(!toggle(&mut vs, &vec![0, 0]));
    assert!(all_collapsed(&vs));
}
