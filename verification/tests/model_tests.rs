use std::collections::HashSet;

use hbx::node::Node;
use hbx::node::NodeKind;
use hbx::store::Store;
use hbx::store::StoreError;

#[test]
fn test_hash_set_extend() {
    let ans = [1, 2, 3];
    let mut set = HashSet::new();
    set.extend(ans);
    assert_eq!(set.len(), 3);
}

#[test]
fn sample_carries_only_a_name() {
    let n = Node::sample("proj");
    assert_eq!(n.name, "proj");
    match n.kind {
        NodeKind::File { digest } => assert_eq!(digest, ""),
        _ => panic!("a sample node is an empty file node"),
    }
}

#[test]
fn file_node_digest_of_hello() {
    let n = Node::file(String::from("a.txt"), b"hello");
    match n.kind {
        NodeKind::File { digest } => {
            assert_eq!(digest, "5d41402abc4b2a76b9719d911017c592");
        }
        _ => panic!("a captured file is a file node"),
    }
}

#[test]
fn file_node_digest_of_empty() {
    let n = Node::file(String::from("empty"), b"");
    match n.kind {
        NodeKind::File { digest } => {
            assert_eq!(digest, "d41d8cd98f00b204e9800998ecf8427e");
        }
        _ => panic!("a captured file is a file node"),
    }
}

#[test]
fn symlink_node_keeps_target_verbatim() {
    let n = Node::symlink(String::from("link"), String::from("../elsewhere"));
    match n.kind {
        NodeKind::Symlink { target } => assert_eq!(target, "../elsewhere"),
        _ => panic!("a captured symlink is a symlink node"),
    }
}

#[test]
fn directory_requires_children_sorted_by_name() {
    let a = Node::file(String::from("a.txt"), b"x");
    let b = Node::file(String::from("b.txt"), b"y");
    assert!(Node::directory(String::from("d"), vec![a, b]).is_some());

    let a = Node::file(String::from("a.txt"), b"x");
    let b = Node::file(String::from("b.txt"), b"y");
    assert!(Node::directory(String::from("d"), vec![b, a]).is_none());
}

#[test]
fn directory_rejects_duplicate_names() {
    let a1 = Node::file(String::from("a.txt"), b"x");
    let a2 = Node::file(String::from("a.txt"), b"y");
    assert!(Node::directory(String::from("d"), vec![a1, a2]).is_none());
}

#[test]
fn config_and_store_paths() {
    let s = Store::new(String::from("/tmp/s"));
    assert_eq!(s.config_path(), "/tmp/s/registry");
    assert_eq!(s.store_dir(), "/tmp/s/objects");
}

#[test]
fn pull_is_unsupported() {
    let s = Store::new(String::from("/tmp/s"));
    let r = s.pull(vec![String::from("proj")], String::from("somewhere:1234"));
    assert_eq!(r, Err(StoreError::Unsupported));
}
