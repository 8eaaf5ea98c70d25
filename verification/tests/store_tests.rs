use std::collections::HashSet;

use hbx::node::Node;
use hbx::node::NodeKind;
use hbx::plan::link_plan;
use hbx::plan::RecoverStep;
use hbx::store::Store;
use hbx::store::StoreError;

const HELLO_DIGEST: &str = "5d41402abc4b2a76b9719d911017c592";

/// The tree of the concrete scenario: `proj/` holding `a.txt` (bytes "hello")
/// and `sub/` holding `b.txt` (bytes "hello").
fn proj_tree() -> Node {
    let a = Node::file(String::from("a.txt"), b"hello");
    let b = Node::file(String::from("b.txt"), b"hello");
    let sub = Node::directory(String::from("sub"), vec![b]).unwrap();
    Node::directory(String::from("proj"), vec![a, sub]).unwrap()
}

/// Applies a link plan to a simulated object store with the shell's
/// deduplication: an object is created only if its digest is absent.
fn apply_links(objects: &mut HashSet<String>, root: &Node) {
    for step in link_plan(root) {
        if !objects.contains(&step.digest) {
            objects.insert(step.digest);
        }
    }
}

#[test]
fn concrete_scenario() {
    let mut store = Store::new(String::from("/tmp/s"));
    let proj = proj_tree();

    let links = link_plan(&proj);
    assert_eq!(links.len(), 2);
    assert_eq!(links[0].source, vec![String::from("a.txt")]);
    assert_eq!(links[0].digest, HELLO_DIGEST);
    assert_eq!(links[1].source, vec![String::from("sub"), String::from("b.txt")]);
    assert_eq!(links[1].digest, HELLO_DIGEST);

    let mut objects: HashSet<String> = HashSet::new();
    apply_links(&mut objects, &proj);
    assert_eq!(objects.len(), 1);
    assert!(objects.contains(HELLO_DIGEST));

    assert!(store.add(proj));
    assert_eq!(store.list(), vec![String::from("proj")]);

    let steps = store.get("proj").unwrap();
    assert_eq!(steps.len(), 4);
    match &steps[0] {
        RecoverStep::Dir { path } => assert_eq!(path, &vec![String::from("proj")]),
        _ => panic!("the root directory is made first"),
    }
    match &steps[1] {
        RecoverStep::File { path, digest } => {
            assert_eq!(path, &vec![String::from("proj"), String::from("a.txt")]);
            assert_eq!(digest, HELLO_DIGEST);
        }
        _ => panic!("a.txt is linked second"),
    }
    match &steps[2] {
        RecoverStep::Dir { path } => {
            assert_eq!(path, &vec![String::from("proj"), String::from("sub")]);
        }
        _ => panic!("sub is made third"),
    }
    match &steps[3] {
        RecoverStep::File { path, digest } => {
            assert_eq!(
                path,
                &vec![String::from("proj"), String::from("sub"), String::from("b.txt")]
            );
            assert_eq!(digest, HELLO_DIGEST);
        }
        _ => panic!("b.txt is linked last"),
    }
}

#[test]
fn add_twice_is_a_no_op() {
    let mut store = Store::new(String::from("/tmp/s"));
    assert!(store.add(proj_tree()));
    assert_eq!(store.entries.len(), 1);
    assert!(!store.add(proj_tree()));
    assert_eq!(store.entries.len(), 1);
}

#[test]
fn identical_content_under_two_names_gives_one_object() {
    let one = Node::file(String::from("one.txt"), b"same bytes");
    let two = Node::file(String::from("two.txt"), b"same bytes");
    let mut objects: HashSet<String> = HashSet::new();
    apply_links(&mut objects, &one);
    apply_links(&mut objects, &two);
    assert_eq!(objects.len(), 1);
}

#[test]
fn clear_removes_exactly_the_unreferenced_objects() {
    let mut store = Store::new(String::from("/tmp/s"));
    let d1 = Node::file(String::from("one"), b"first");
    let d2 = Node::file(String::from("two"), b"second");
    let digest1 = match &d1.kind {
        NodeKind::File { digest } => digest.clone(),
        _ => unreachable!(),
    };
    let digest2 = match &d2.kind {
        NodeKind::File { digest } => digest.clone(),
        _ => unreachable!(),
    };
    assert!(store.add(d1));
    assert!(store.add(d2));

    let present = vec![digest1, digest2, String::from("feedfacefeedfacefeedfacefeedface")];
    let doomed = store.clear(&present);
    assert_eq!(doomed, vec![String::from("feedfacefeedfacefeedfacefeedface")]);
}

#[test]
fn delete_reclaims_nothing_until_clear() {
    let mut store = Store::new(String::from("/tmp/s"));
    let mut objects: HashSet<String> = HashSet::new();
    let proj = proj_tree();
    apply_links(&mut objects, &proj);
    assert!(store.add(proj));

    store.delete("proj");
    // The registry entry is gone, yet every previously linked object is still
    // in the (simulated) object store: delete is metadata-only.
    assert_eq!(store.list().len(), 0);
    assert_eq!(objects.len(), 1);
    assert!(objects.contains(HELLO_DIGEST));

    // Only the sweep removes the now-unreferenced object.
    let present: Vec<String> = vec![String::from(HELLO_DIGEST)];
    let doomed = store.clear(&present);
    assert_eq!(doomed, vec![String::from(HELLO_DIGEST)]);
}

#[test]
fn get_unknown_name_is_not_found() {
    let store = Store::new(String::from("/tmp/s"));
    match store.get("missing") {
        Err(StoreError::NotFound) => {}
        _ => panic!("a name absent from the registry is the only get failure"),
    }
}

#[test]
fn delete_of_absent_name_changes_nothing() {
    let mut store = Store::new(String::from("/tmp/s"));
    assert!(store.add(proj_tree()));
    store.delete("other");
    assert_eq!(store.list(), vec![String::from("proj")]);
}

#[test]
fn merge_keeps_the_existing_entry_on_collision() {
    let mut store = Store::new(String::from("/tmp/s"));
    assert!(store.add(Node::file(String::from("x"), b"kept")));

    let loaded = vec![
        Node::file(String::from("x"), b"dropped"),
        Node::file(String::from("y"), b"new"),
    ];
    store.merge_loaded(loaded);

    assert_eq!(store.list(), vec![String::from("x"), String::from("y")]);
    match &store.entries[0].kind {
        NodeKind::File { digest } => {
            let kept = Node::file(String::from("x"), b"kept");
            match &kept.kind {
                NodeKind::File { digest: kd } => assert_eq!(digest, kd),
                _ => unreachable!(),
            }
        }
        _ => panic!("the existing entry survives a colliding load"),
    }
}

#[test]
fn recovered_symlink_target_is_verbatim() {
    let link = Node::symlink(String::from("ln"), String::from("../target/file"));
    let root = Node::directory(String::from("d"), vec![link]).unwrap();
    let mut store = Store::new(String::from("/tmp/s"));
    assert!(store.add(root));
    let steps = store.get("d").unwrap();
    assert_eq!(steps.len(), 2);
    match &steps[1] {
        RecoverStep::Symlink { path, target } => {
            assert_eq!(path, &vec![String::from("d"), String::from("ln")]);
            assert_eq!(target, "../target/file");
        }
        _ => panic!("the symlink is recreated inside its directory"),
    }
}

#[test]
fn empty_directory_recovers_as_one_directory() {
    let d = Node::directory(String::from("empty"), Vec::new()).unwrap();
    assert!(link_plan(&d).is_empty());
    let mut store = Store::new(String::from("/tmp/s"));
    assert!(store.add(d));
    let steps = store.get("empty").unwrap();
    assert_eq!(steps.len(), 1);
    match &steps[0] {
        RecoverStep::Dir { path } => assert_eq!(path, &vec![String::from("empty")]),
        _ => panic!("an empty directory recovers as a single directory"),
    }
}
