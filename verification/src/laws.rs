use vstd::prelude::*;

use crate::digest::digest_of;
use crate::node::digests_up_to;
use crate::node::node_digests;
use crate::node::Node;
use crate::node::NodeKind;
use crate::plan::children_map;
use crate::plan::link_children_spec;
use crate::plan::link_plan_spec;
use crate::plan::recover_children_spec;
use crate::plan::recover_plan_spec;
use crate::plan::steps_map;
use crate::plan::tree_map;
use crate::plan::FsEntryV;
use crate::plan::LinkStepV;
use crate::plan::StepV;
use crate::store::has_name;
use crate::store::insert_entry;
use crate::store::merge_entries;
use crate::store::names_unique;
use crate::store::store_digests;
use crate::store::sweep_spec;
use crate::store::unreferenced;

verus! {

/// The object names a sequence of link steps creates: the shell performs each
/// step as a hard link skipped when the object already exists, so running the
/// steps adds exactly these digests to the object store.
pub open spec fn link_digests(steps: Seq<LinkStepV>) -> Set<Seq<char>>
    decreases steps.len(),
{
    if steps.len() == 0 {
        Set::empty()
    } else {
        link_digests(steps.drop_last()).insert(steps.last().digest)
    }
}

/// The object store after the link plan of tree `n` has run against the
/// objects already present.
pub open spec fn objects_after_link(objects: Set<Seq<char>>, n: Node) -> Set<Seq<char>> {
    objects.union(link_digests(link_plan_spec(n, Seq::empty())))
}

proof fn lemma_link_digests_concat(a: Seq<LinkStepV>, b: Seq<LinkStepV>)
    ensures
        link_digests(a + b) == link_digests(a).union(link_digests(b)),
    decreases b.len(),
{
    if b.len() == 0 {
        assert(a + b =~= a);
        assert(link_digests(a).union(link_digests(b)) =~= link_digests(a));
    } else {
        lemma_link_digests_concat(a, b.drop_last());
        assert((a + b).drop_last() =~= a + b.drop_last());
        assert((a + b).last() == b.last());
        assert(link_digests(a).union(link_digests(b)) =~= link_digests(a).union(
            link_digests(b.drop_last()),
        ).insert(b.last().digest));
    }
}

/// Linking covers the tree exactly: the link plan of a tree creates exactly
/// the objects that the tree references, wherever its source lies.
pub proof fn lemma_link_plan_digests(n: Node, prefix: Seq<Seq<char>>)
    ensures
        link_digests(link_plan_spec(n, prefix)) == node_digests(n),
    decreases n, 0int,
{
    match n.kind {
        NodeKind::File { digest } => {
            reveal_with_fuel(link_digests, 2);
            let s = link_plan_spec(n, prefix);
            assert(s.drop_last() =~= Seq::<LinkStepV>::empty());
            assert(link_digests(s) =~= Set::empty().insert(digest@));
        },
        NodeKind::Symlink { .. } => {},
        NodeKind::Directory { children } => {
            lemma_link_children_digests(children@, children@.len() as int, prefix);
        },
    }
}

proof fn lemma_link_children_digests(children: Seq<Node>, k: int, prefix: Seq<Seq<char>>)
    ensures
        link_digests(link_children_spec(children, k, prefix)) == digests_up_to(children, k),
    decreases children, k,
{
    if k <= 0 || k > children.len() {
    } else {
        lemma_link_children_digests(children, k - 1, prefix);
        lemma_link_plan_digests(children[k - 1], prefix.push(children[k - 1].name@));
        lemma_link_digests_concat(
            link_children_spec(children, k - 1, prefix),
            link_plan_spec(children[k - 1], prefix.push(children[k - 1].name@)),
        );
    }
}

/// Dedup: two captured files with identical byte content carry one digest,
/// under whatever names, so linking both into the object store adds exactly
/// one object, keyed by that shared digest.
pub proof fn lemma_dedup(objects: Set<Seq<char>>, n1: Node, n2: Node, bytes: Seq<u8>)
    requires
        n1.kind matches NodeKind::File { digest } && digest@ == digest_of(bytes),
        n2.kind matches NodeKind::File { digest } && digest@ == digest_of(bytes),
    ensures
        objects_after_link(objects_after_link(objects, n1), n2) == objects.insert(
            digest_of(bytes),
        ),
{
    lemma_link_plan_digests(n1, Seq::empty());
    lemma_link_plan_digests(n2, Seq::empty());
    assert(node_digests(n1) =~= Set::empty().insert(digest_of(bytes)));
    assert(node_digests(n2) =~= Set::empty().insert(digest_of(bytes)));
    assert(objects.union(node_digests(n1)).union(node_digests(n2)) =~= objects.insert(
        digest_of(bytes),
    ));
}

proof fn lemma_steps_map_concat(a: Seq<StepV>, b: Seq<StepV>)
    ensures
        steps_map(a + b) == steps_map(a).union_prefer_right(steps_map(b)),
    decreases b.len(),
{
    if b.len() == 0 {
        assert(a + b =~= a);
        assert(steps_map(a).union_prefer_right(steps_map(b)) =~= steps_map(a));
    } else {
        lemma_steps_map_concat(a, b.drop_last());
        assert((a + b).drop_last() =~= a + b.drop_last());
        assert((a + b).last() == b.last());
        assert(steps_map(a).union_prefer_right(steps_map(b)) =~= steps_map(a).union_prefer_right(
            steps_map(b.drop_last()),
        ).insert(b.last().path, b.last().entry));
    }
}

/// Recovery rebuilds exactly what was captured: executing the recovery plan
/// of a tree step by step leaves precisely the tree's own map of paths to
/// entries — same names, same nesting, same digests, same link targets.
pub proof fn lemma_plan_rebuilds_tree(n: Node, prefix: Seq<Seq<char>>)
    ensures
        steps_map(recover_plan_spec(n, prefix)) == tree_map(n, prefix),
    decreases n, 0int,
{
    let path = prefix.push(n.name@);
    match n.kind {
        NodeKind::File { digest } => {
            reveal_with_fuel(steps_map, 2);
            let s = recover_plan_spec(n, prefix);
            assert(s.drop_last() =~= Seq::<StepV>::empty());
            assert(steps_map(s) =~= tree_map(n, prefix));
        },
        NodeKind::Symlink { target } => {
            reveal_with_fuel(steps_map, 2);
            let s = recover_plan_spec(n, prefix);
            assert(s.drop_last() =~= Seq::<StepV>::empty());
            assert(steps_map(s) =~= tree_map(n, prefix));
        },
        NodeKind::Directory { children } => {
            reveal_with_fuel(steps_map, 2);
            let dir = seq![StepV { path, entry: FsEntryV::Dir }];
            let rest = recover_children_spec(children@, children@.len() as int, path);
            lemma_children_rebuild(children@, children@.len() as int, path);
            lemma_steps_map_concat(dir, rest);
            assert(dir.drop_last() =~= Seq::<StepV>::empty());
            assert(steps_map(dir) =~= Map::<Seq<Seq<char>>, FsEntryV>::empty().insert(
                path,
                FsEntryV::Dir,
            ));
            assert(steps_map(recover_plan_spec(n, prefix)) =~= tree_map(n, prefix));
        },
    }
}

proof fn lemma_children_rebuild(children: Seq<Node>, k: int, path: Seq<Seq<char>>)
    ensures
        steps_map(recover_children_spec(children, k, path)) == children_map(children, k, path),
    decreases children, k,
{
    if k <= 0 || k > children.len() {
    } else {
        lemma_children_rebuild(children, k - 1, path);
        lemma_plan_rebuilds_tree(children[k - 1], path);
        lemma_steps_map_concat(
            recover_children_spec(children, k - 1, path),
            recover_plan_spec(children[k - 1], path),
        );
    }
}

/// Referential integrity: a recovery plan hard-links only objects whose
/// digests the captured tree references, so after a sweep that spares every
/// referenced object, recovery finds everything it asks for.
pub proof fn lemma_recovery_needs_only_referenced(n: Node, prefix: Seq<Seq<char>>)
    ensures
        forall|j: int|
            0 <= j < recover_plan_spec(n, prefix).len() && (#[trigger] recover_plan_spec(
                n,
                prefix,
            )[j]).entry is File ==> node_digests(n).contains(
                recover_plan_spec(n, prefix)[j].entry->File_digest,
            ),
    decreases n, 0int,
{
    let plan = recover_plan_spec(n, prefix);
    let path = prefix.push(n.name@);
    match n.kind {
        NodeKind::File { digest } => {},
        NodeKind::Symlink { .. } => {},
        NodeKind::Directory { children } => {
            let rest = recover_children_spec(children@, children@.len() as int, path);
            lemma_children_recovery_covered(children@, children@.len() as int, path);
            assert forall|j: int|
                0 <= j < plan.len() && (#[trigger] plan[j]).entry is File implies node_digests(
                n,
            ).contains(plan[j].entry->File_digest) by {
                if j > 0 {
                    assert(plan[j] == rest[j - 1]);
                }
            }
        },
    }
}

proof fn lemma_children_recovery_covered(children: Seq<Node>, k: int, path: Seq<Seq<char>>)
    ensures
        forall|j: int|
            0 <= j < recover_children_spec(children, k, path).len() && (
            #[trigger] recover_children_spec(children, k, path)[j]).entry is File
                ==> digests_up_to(children, k).contains(
                recover_children_spec(children, k, path)[j].entry->File_digest,
            ),
    decreases children, k,
{
    if k <= 0 || k > children.len() {
    } else {
        let front = recover_children_spec(children, k - 1, path);
        let child_plan = recover_plan_spec(children[k - 1], path);
        let plan = recover_children_spec(children, k, path);
        lemma_children_recovery_covered(children, k - 1, path);
        lemma_recovery_needs_only_referenced(children[k - 1], path);
        assert forall|j: int|
            0 <= j < plan.len() && (#[trigger] plan[j]).entry is File implies digests_up_to(
            children,
            k,
        ).contains(plan[j].entry->File_digest) by {
            if j < front.len() {
                assert(plan[j] == front[j]);
            } else {
                assert(plan[j] == child_plan[j - front.len()]);
            }
        }
    }
}

proof fn lemma_merge_fresh(base: Seq<Node>, loaded: Seq<Node>)
    requires
        forall|j: int| 0 <= j < loaded.len() ==> !has_name(base, (#[trigger] loaded[j]).name@),
        names_unique(loaded),
    ensures
        merge_entries(base, loaded) == base + loaded,
    decreases loaded.len(),
{
    if loaded.len() == 0 {
        assert(base + loaded =~= base);
    } else {
        let first = loaded[0];
        assert(!has_name(base, first.name@));
        let base1 = base.push(first);
        let rest = loaded.skip(1);
        assert forall|j: int| 0 <= j < rest.len() implies !has_name(
            base1,
            (#[trigger] rest[j]).name@,
        ) by {
            assert(rest[j] == loaded[j + 1]);
            assert(loaded[0].name@ != loaded[j + 1].name@);
            if has_name(base1, rest[j].name@) {
                let w = choose|w: int|
                    0 <= w < base1.len() && base1[w].name@ == rest[j].name@;
                assert(w < base.len() ==> base[w].name@ == rest[j].name@);
            }
        }
        assert forall|p: int, q: int|
            #![trigger rest[p].name@, rest[q].name@]
            0 <= p < q < rest.len() implies rest[p].name@ != rest[q].name@ by {
            assert(rest[p] == loaded[p + 1]);
            assert(rest[q] == loaded[q + 1]);
        }
        lemma_merge_fresh(base1, rest);
        assert(base1 + rest =~= base + loaded);
    }
}

/// Round trip: adding a fresh root to a registry that lacks its name appends
/// it; the registry stays unique by name and survives a save and a fresh
/// load unchanged; the new name resolves to exactly the added root; and
/// executing the root's recovery plan reproduces the captured tree in full.
pub proof fn lemma_round_trip(entries: Seq<Node>, root: Node)
    requires
        names_unique(entries),
        !has_name(entries, root.name@),
    ensures
        insert_entry(entries, root) == entries.push(root),
        names_unique(entries.push(root)),
        merge_entries(Seq::empty(), entries.push(root)) == entries.push(root),
        has_name(entries.push(root), root.name@),
        forall|i: int|
            0 <= i < entries.push(root).len() && (#[trigger] entries.push(root)[i]).name@
                == root.name@ ==> entries.push(root)[i] == root,
        steps_map(recover_plan_spec(root, Seq::empty())) == tree_map(root, Seq::empty()),
{
    let after = entries.push(root);
    assert(after[entries.len() as int] == root);
    assert forall|i: int, j: int|
        #![trigger after[i].name@, after[j].name@]
        0 <= i < j < after.len() implies after[i].name@ != after[j].name@ by {
        if j < entries.len() {
        } else {
            assert(after[i] == entries[i]);
        }
    }
    assert forall|i: int|
        0 <= i < after.len() && (#[trigger] after[i]).name@ == root.name@ implies after[i]
        == root by {
        if i < entries.len() {
            assert(after[i] == entries[i]);
        }
    }
    assert forall|j: int| 0 <= j < after.len() implies !has_name(
        Seq::<Node>::empty(),
        (#[trigger] after[j]).name@,
    ) by {}
    lemma_merge_fresh(Seq::empty(), after);
    assert(Seq::<Node>::empty() + after =~= after);
    lemma_plan_rebuilds_tree(root, Seq::empty());
}

/// Idempotence: inserting a root whose name the registry already holds keeps
/// the registry exactly as it is, so capturing the same tree twice in
/// succession leaves one entry, inserted by the first capture.
pub proof fn lemma_add_idempotent(entries: Seq<Node>, root: Node)
    ensures
        insert_entry(insert_entry(entries, root), root) == insert_entry(entries, root),
        has_name(entries, root.name@) ==> insert_entry(entries, root) == entries,
        !has_name(entries, root.name@) ==> insert_entry(entries, root).len() == entries.len() + 1,
{
    if !has_name(entries, root.name@) {
        let after = entries.push(root);
        assert(after[entries.len() as int] == root);
        assert(has_name(after, root.name@));
    }
}

/// Mark-and-sweep: the sweep removes an object exactly when it is present in
/// the object store and referenced by no registry entry, so everything the
/// registry still references survives and everything orphaned goes.
pub proof fn lemma_mark_and_sweep(present: Seq<String>, referenced: Set<Seq<char>>, d: String)
    ensures
        sweep_spec(present, referenced).contains(d) <==> (present.contains(d)
            && !referenced.contains(d@)),
{
    let pred = unreferenced(referenced);
    if present.contains(d) && !referenced.contains(d@) {
        let i = choose|i: int| 0 <= i < present.len() && present[i] == d;
        present.lemma_filter_contains(pred, i);
    }
    if sweep_spec(present, referenced).contains(d) {
        present.lemma_filter_contains_rev(pred, d);
        let j = choose|j: int|
            0 <= j < present.filter(pred).len() && present.filter(pred)[j] == d;
        present.lemma_filter_pred(pred, j);
    }
}

proof fn lemma_digests_membership(s: Seq<Node>, k: int, d: Seq<char>)
    requires
        0 <= k <= s.len(),
    ensures
        digests_up_to(s, k).contains(d) <==> exists|j: int|
            0 <= j < k && node_digests(#[trigger] s[j]).contains(d),
    decreases k,
{
    if k <= 0 {
    } else {
        lemma_digests_membership(s, k - 1, d);
        if digests_up_to(s, k).contains(d) && !digests_up_to(s, k - 1).contains(d) {
            assert(node_digests(s[k - 1]).contains(d));
        }
        if exists|j: int| 0 <= j < k && node_digests(#[trigger] s[j]).contains(d) {
            let j = choose|j: int| 0 <= j < k && node_digests(#[trigger] s[j]).contains(d);
            if j < k - 1 {
                assert(digests_up_to(s, k - 1).contains(d));
            }
        }
    }
}

/// Delete reclaims nothing: removing a root entry is pure registry metadata
/// work that only shrinks the set of referenced digests, so every object the
/// remaining entries reference survives the sweep a later collection
/// computes, and nothing at all leaves the object store before one runs.
pub proof fn lemma_delete_does_not_reclaim(
    entries: Seq<Node>,
    i: int,
    present: Seq<String>,
    d: String,
)
    requires
        0 <= i < entries.len(),
    ensures
        store_digests(entries.remove(i)).subset_of(store_digests(entries)),
        store_digests(entries.remove(i)).contains(d@) ==> !sweep_spec(
            present,
            store_digests(entries.remove(i)),
        ).contains(d),
{
    let after = entries.remove(i);
    assert forall|x: Seq<char>| store_digests(after).contains(x) implies store_digests(
        entries,
    ).contains(x) by {
        lemma_digests_membership(after, after.len() as int, x);
        lemma_digests_membership(entries, entries.len() as int, x);
        let j = choose|j: int| 0 <= j < after.len() && node_digests(#[trigger] after[j]).contains(x);
        if j < i {
            assert(after[j] == entries[j]);
        } else {
            assert(after[j] == entries[j + 1]);
        }
    }
    lemma_mark_and_sweep(present, store_digests(after), d);
}

} // verus!
