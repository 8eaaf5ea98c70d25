use vstd::prelude::*;
use vstd::string::StringExecFns;

use crate::node::digests_up_to;
use crate::node::node_wf;
use crate::node::nodes_all_wf;
use crate::node::nodes_contain_digest;
use crate::node::Node;
use crate::order::str_eq;

verus! {

/// The failures the core itself decides. File-system and serialization
/// failures arise only in the unverified shell and stay there.
#[derive(Clone, Copy, Debug, PartialEq, Eq, Structural)]
pub enum StoreError {
    /// A lookup named a root entry absent from the registry.
    NotFound,
    /// A remote pull was requested; the store has no remote capability.
    Unsupported,
}

/// The in-memory registry of one store home: the set of captured root
/// entries, keyed by name.
pub struct Store {
    pub root_path: String,
    pub entries: Vec<Node>,
}

/// Some entry of `entries` is named `name`.
pub open spec fn has_name(entries: Seq<Node>, name: Seq<char>) -> bool {
    exists|i: int| 0 <= i < entries.len() && entries[i].name@ == name
}

/// No two entries share a name: the registry treats a name as a single slot.
pub open spec fn names_unique(entries: Seq<Node>) -> bool {
    forall|i: int, j: int|
        #![trigger entries[i].name@, entries[j].name@]
        0 <= i < j < entries.len() ==> entries[i].name@ != entries[j].name@
}

/// The registry invariant: root names are unique and every entry tree is
/// well formed.
pub open spec fn store_wf(s: Store) -> bool {
    names_unique(s.entries@) && nodes_all_wf(s.entries@)
}

/// What inserting a root entry does: nothing when the name is already
/// present, else it is appended.
pub open spec fn insert_entry(entries: Seq<Node>, root: Node) -> Seq<Node> {
    if has_name(entries, root.name@) {
        entries
    } else {
        entries.push(root)
    }
}

/// Merging loaded entries into the registry, keeping the existing entry on a
/// name collision: each loaded entry in turn is inserted only if its name is
/// still free.
pub open spec fn merge_entries(base: Seq<Node>, loaded: Seq<Node>) -> Seq<Node>
    decreases loaded.len(),
{
    if loaded.len() == 0 {
        base
    } else {
        merge_entries(insert_entry(base, loaded[0]), loaded.skip(1))
    }
}

/// The digests referenced by the registry: the union over all root entries.
pub open spec fn store_digests(entries: Seq<Node>) -> Set<Seq<char>> {
    digests_up_to(entries, entries.len() as int)
}

/// The test an object must fail to survive the sweep: membership of its name
/// in the referenced set.
pub open spec fn unreferenced(referenced: Set<Seq<char>>) -> spec_fn(String) -> bool {
    |d: String| !referenced.contains(d@)
}

/// The objects the sweep removes: those present in the object store but
/// referenced by no registry entry, kept in their listed order.
pub open spec fn sweep_spec(present: Seq<String>, referenced: Set<Seq<char>>) -> Seq<String> {
    present.filter(unreferenced(referenced))
}

pub(crate) fn find_index(entries: &Vec<Node>, name: &str) -> (r: Option<usize>)
    ensures
        match r {
            Some(i) => i < entries@.len() && entries@[i as int].name@ == name@ && (forall|j: int|
                0 <= j < i ==> (#[trigger] entries@[j]).name@ != name@),
            None => !has_name(entries@, name@),
        },
{
    let mut i: usize = 0;
    while i < entries.len()
        invariant
            i <= entries@.len(),
            forall|j: int| 0 <= j < i ==> (#[trigger] entries@[j]).name@ != name@,
        decreases entries@.len() - i,
    {
        if str_eq(entries[i].name.as_str(), name) {
            return Some(i);
        }
        i += 1;
    }
    None
}

impl Store {
    /// A fresh registry for the store homed at `root_path`; the caller is
    /// responsible for the home directory itself existing.
    pub fn new(root_path: String) -> (s: Store)
        ensures
            s.root_path == root_path,
            s.entries@ =~= Seq::<Node>::empty(),
            store_wf(s),
    {
        Store { root_path, entries: Vec::new() }
    }

    /// The path of the durable registry file under the store home.
    pub fn config_path(&self) -> (r: String)
        ensures
            r@ == self.root_path@ + "/registry"@,
    {
        self.root_path.clone().concat("/registry")
    }

    /// The path of the object-store directory under the store home.
    pub fn store_dir(&self) -> (r: String)
        ensures
            r@ == self.root_path@ + "/objects"@,
    {
        self.root_path.clone().concat("/objects")
    }

    /// Whether the registry holds a root entry named `name`.
    pub fn contains_name(&self, name: &str) -> (r: bool)
        ensures
            r == has_name(self.entries@, name@),
    {
        match find_index(&self.entries, name) {
            Some(_) => true,
            None => false,
        }
    }

    /// Inserts a captured root entry. A name already present keeps its
    /// existing entry: re-capturing under the same name is a no-op, and the
    /// call reports whether the entry was inserted.
    pub fn add(&mut self, root: Node) -> (added: bool)
        requires
            node_wf(root),
            store_wf(*old(self)),
        ensures
            store_wf(*final(self)),
            final(self).root_path == old(self).root_path,
            final(self).entries@ == insert_entry(old(self).entries@, root),
            added == !has_name(old(self).entries@, root.name@),
    {
        let present = self.contains_name(root.name.as_str());
        if present {
            false
        } else {
            proof {
                let entries = self.entries@;
                assert forall|i: int, j: int|
                    #![trigger entries.push(root)[i].name@, entries.push(root)[j].name@]
                    0 <= i < j < entries.push(root).len() implies entries.push(root)[i].name@
                    != entries.push(root)[j].name@ by {
                    if j < entries.len() {
                    } else {
                        assert(entries.push(root)[i] == entries[i]);
                    }
                }
                assert forall|i: int| 0 <= i < entries.push(root).len() implies node_wf(
                    #[trigger] entries.push(root)[i],
                ) by {
                    if i < entries.len() {
                        assert(entries.push(root)[i] == entries[i]);
                    }
                }
            }
            self.entries.push(root);
            true
        }
    }

    /// All current root entry names, in registry order.
    pub fn list(&self) -> (r: Vec<String>)
        ensures
            r@.len() == self.entries@.len(),
            forall|i: int| 0 <= i < r@.len() ==> (#[trigger] r@[i])@ == self.entries@[i].name@,
    {
        let mut out: Vec<String> = Vec::new();
        let mut i: usize = 0;
        while i < self.entries.len()
            invariant
                i <= self.entries@.len(),
                out@.len() == i,
                forall|j: int| 0 <= j < i ==> (#[trigger] out@[j])@ == self.entries@[j].name@,
            decreases self.entries@.len() - i,
        {
            out.push(self.entries[i].name.clone());
            i += 1;
        }
        out
    }

    /// Removes the root entry named `name` from the registry, if present.
    /// This is a pure metadata operation: no object-store content is touched,
    /// and orphaned objects are reclaimed only by a later sweep.
    pub fn delete(&mut self, name: &str)
        requires
            store_wf(*old(self)),
        ensures
            store_wf(*final(self)),
            final(self).root_path == old(self).root_path,
            !has_name(old(self).entries@, name@) ==> final(self).entries@ == old(self).entries@,
            has_name(old(self).entries@, name@) ==> exists|i: int|
                0 <= i < old(self).entries@.len() && old(self).entries@[i].name@ == name@
                    && final(self).entries@ == old(self).entries@.remove(i),
            !has_name(final(self).entries@, name@),
    {
        let ghost entries = self.entries@;
        match find_index(&self.entries, name) {
            None => {},
            Some(i) => {
                self.entries.remove(i);
                proof {
                    let after = entries.remove(i as int);
                    assert forall|p: int, q: int|
                        #![trigger after[p].name@, after[q].name@]
                        0 <= p < q < after.len() implies after[p].name@ != after[q].name@ by {}
                    assert forall|p: int| 0 <= p < after.len() implies node_wf(
                        #[trigger] after[p],
                    ) by {}
                    assert forall|p: int| 0 <= p < after.len() implies (#[trigger] after[p]).name@
                        != name@ by {
                        if p < i {
                            assert(after[p] == entries[p]);
                        } else {
                            assert(after[p] == entries[p + 1]);
                        }
                    }
                }
            },
        }
    }

    /// Computes the sweep of a mark-and-sweep collection. `present` lists the
    /// object names currently in the object store; the result lists exactly
    /// those that no registry entry references, the ones to remove. Every
    /// referenced object is kept.
    pub fn clear(&self, present: &Vec<String>) -> (r: Vec<String>)
        ensures
            r@ == sweep_spec(present@, store_digests(self.entries@)),
    {
        let mut out: Vec<String> = Vec::new();
        let mut i: usize = 0;
        while i < present.len()
            invariant
                i <= present@.len(),
                out@ == sweep_spec(present@.subrange(0, i as int), store_digests(self.entries@)),
            decreases present@.len() - i,
        {
            let referenced = nodes_contain_digest(&self.entries, present[i].as_str());
            if !referenced {
                out.push(present[i].clone());
            }
            proof {
                reveal(Seq::filter);
                assert(present@.subrange(0, i + 1).drop_last() =~= present@.subrange(0, i as int));
                assert(present@.subrange(0, i + 1).last() == present@[i as int]);
            }
            i += 1;
        }
        proof {
            assert(present@.subrange(0, present@.len() as int) =~= present@);
        }
        out
    }

    /// Remote pull is outside the store's capability: the call always reports
    /// the operation as unsupported, touching nothing.
    pub fn pull(&self, _names: Vec<String>, _address: String) -> (r: Result<(), StoreError>)
        ensures
            r == Err::<(), StoreError>(StoreError::Unsupported),
    {
        Err(StoreError::Unsupported)
    }

    /// Merges entries loaded from the durable registry into memory, keeping
    /// the existing entry whenever a loaded one collides on name.
    pub fn merge_loaded(&mut self, loaded: Vec<Node>)
        requires
            store_wf(*old(self)),
            nodes_all_wf(loaded@),
        ensures
            store_wf(*final(self)),
            final(self).root_path == old(self).root_path,
            final(self).entries@ == merge_entries(old(self).entries@, loaded@),
    {
        let ghost base0 = self.entries@;
        let ghost loaded0 = loaded@;
        let mut rest = loaded;
        while rest.len() > 0
            invariant
                store_wf(*self),
                self.root_path == old(self).root_path,
                nodes_all_wf(rest@),
                merge_entries(self.entries@, rest@) == merge_entries(base0, loaded0),
            decreases rest@.len(),
        {
            let ghost rest0 = rest@;
            let ghost entries0 = self.entries@;
            let n = rest.remove(0);
            proof {
                assert(rest@ =~= rest0.skip(1));
                assert forall|i: int| 0 <= i < rest@.len() implies node_wf(
                    #[trigger] rest@[i],
                ) by {
                    assert(rest@[i] == rest0[i + 1]);
                }
            }
            let _ = self.add(n);
            proof {
                assert(merge_entries(entries0, rest0) == merge_entries(
                    insert_entry(entries0, rest0[0]),
                    rest0.skip(1),
                ));
            }
        }
    }
}

} // verus!
