use vstd::prelude::*;

use crate::digest::digest_bytes;
use crate::digest::digest_of;
use crate::order::lex_lt;
use crate::order::str_eq;
use crate::order::str_lex_lt;

verus! {

/// What one captured file-system entry is: a regular file (represented by the
/// content digest of its bytes; the bytes themselves live in the object
/// store), a symbolic link (its raw target, captured verbatim and never
/// followed), or a directory (its children, ordered by name).
pub enum NodeKind {
    File { digest: String },
    Symlink { target: String },
    Directory { children: Vec<Node> },
}

/// One captured file-system entry. Within a sibling list or the registry's
/// root set, a node is identified by `name` alone.
pub struct Node {
    pub name: String,
    pub kind: NodeKind,
}

/// Sibling lists are strictly ordered by name, so sibling names are unique
/// and a captured tree has one deterministic shape.
pub open spec fn children_sorted(children: Seq<Node>) -> bool {
    forall|i: int|
        0 <= i && i + 1 < children.len() ==> lex_lt(
            (#[trigger] children[i]).name@,
            children[i + 1].name@,
        )
}

/// Every node of the sequence is well formed.
pub open spec fn nodes_all_wf(nodes: Seq<Node>) -> bool {
    forall|i: int| 0 <= i < nodes.len() ==> node_wf(#[trigger] nodes[i])
}

/// A well-formed node: every directory's children are strictly ordered by
/// name and themselves well formed.
pub open spec fn node_wf(n: Node) -> bool
    decreases n,
{
    match n.kind {
        NodeKind::File { .. } => true,
        NodeKind::Symlink { .. } => true,
        NodeKind::Directory { children } => children_sorted(children@) && (forall|i: int|
            0 <= i < children.len() ==> node_wf(#[trigger] children[i])),
    }
}

/// The set of content digests referenced by the tree rooted at `n`: `File`
/// digests are the only edges into the object store; symlinks hold none.
pub open spec fn node_digests(n: Node) -> Set<Seq<char>>
    decreases n, 0int,
{
    match n.kind {
        NodeKind::File { digest } => Set::empty().insert(digest@),
        NodeKind::Symlink { .. } => Set::empty(),
        NodeKind::Directory { children } => digests_up_to(children@, children@.len() as int),
    }
}

/// The digests referenced by the first `k` nodes of `nodes`.
pub open spec fn digests_up_to(nodes: Seq<Node>, k: int) -> Set<Seq<char>>
    decreases nodes, k,
{
    if k <= 0 || k > nodes.len() {
        Set::empty()
    } else {
        digests_up_to(nodes, k - 1).union(node_digests(nodes[k - 1]))
    }
}

proof fn lemma_sorted_pair(children: Seq<Node>, i: int, j: int)
    requires
        children_sorted(children),
        0 <= i < j < children.len(),
    ensures
        lex_lt(children[i].name@, children[j].name@),
    decreases j - i,
{
    if j == i + 1 {
    } else {
        lemma_sorted_pair(children, i, j - 1);
        crate::order::lemma_lex_lt_transitive(
            children[i].name@,
            children[j - 1].name@,
            children[j].name@,
            0,
        );
    }
}

/// The strict sibling order makes sibling names unique: within one ordered
/// child list, no name occurs twice.
pub proof fn lemma_sibling_names_unique(children: Seq<Node>)
    requires
        children_sorted(children),
    ensures
        forall|i: int, j: int|
            #![trigger children[i].name@, children[j].name@]
            0 <= i < j < children.len() ==> children[i].name@ != children[j].name@,
{
    assert forall|i: int, j: int|
        #![trigger children[i].name@, children[j].name@]
        0 <= i < j < children.len() implies children[i].name@ != children[j].name@ by {
        lemma_sorted_pair(children, i, j);
        crate::order::lemma_lex_lt_irreflexive(children[i].name@, 0);
    }
}

impl Node {
    /// A probe node carrying only a name, used to look an entry up by name.
    pub fn sample(s: &str) -> (n: Node)
        ensures
            n.name@ == s@,
            n.kind matches NodeKind::File { digest } && digest@ == Seq::<char>::empty(),
            node_wf(n),
    {
        Node { name: s.to_owned(), kind: NodeKind::File { digest: String::new() } }
    }

    /// Captures a regular file: the node records the content digest of the
    /// file's bytes, not the bytes themselves.
    pub fn file(name: String, bytes: &[u8]) -> (n: Node)
        ensures
            n.name == name,
            n.kind matches NodeKind::File { digest } && digest@ == digest_of(bytes@),
            node_wf(n),
    {
        Node { name, kind: NodeKind::File { digest: digest_bytes(bytes) } }
    }

    /// Captures a symbolic link: the raw target is stored verbatim.
    pub fn symlink(name: String, target: String) -> (n: Node)
        ensures
            n.name == name,
            n.kind matches NodeKind::Symlink { target: t } && t == target,
            node_wf(n),
    {
        Node { name, kind: NodeKind::Symlink { target } }
    }

    /// Captures a directory from its already-captured children. The children
    /// must arrive strictly ordered by name and well formed; otherwise no
    /// node is built.
    pub fn directory(name: String, children: Vec<Node>) -> (r: Option<Node>)
        ensures
            (r is Some) == (children_sorted(children@) && nodes_all_wf(children@)),
            r matches Some(n) ==> n.name == name && n.kind == (NodeKind::Directory { children })
                && node_wf(n),
    {
        if children_ok(&children) {
            let n = Node { name, kind: NodeKind::Directory { children } };
            Some(n)
        } else {
            None
        }
    }

    /// Decides well-formedness of the whole tree rooted at `self`.
    pub fn wf(&self) -> (r: bool)
        ensures
            r == node_wf(*self),
        decreases *self,
    {
        match &self.kind {
            NodeKind::File { .. } => true,
            NodeKind::Symlink { .. } => true,
            NodeKind::Directory { children } => children_ok(children),
        }
    }

    /// Decides whether the tree rooted at `self` references the digest `d`.
    pub fn contains_digest(&self, d: &str) -> (r: bool)
        ensures
            r == node_digests(*self).contains(d@),
        decreases *self,
    {
        match &self.kind {
            NodeKind::File { digest } => str_eq(digest.as_str(), d),
            NodeKind::Symlink { .. } => false,
            NodeKind::Directory { children } => nodes_contain_digest(children, d),
        }
    }
}

fn children_ok(children: &Vec<Node>) -> (r: bool)
    ensures
        r == (children_sorted(children@) && nodes_all_wf(children@)),
    decreases *children,
{
    let n = children.len();
    let mut i: usize = 0;
    while i < n
        invariant
            n == children@.len(),
            i <= n,
            forall|j: int| 0 <= j < i && j + 1 < n ==> lex_lt(
                (#[trigger] children@[j]).name@,
                children@[j + 1].name@,
            ),
            forall|j: int| 0 <= j < i ==> node_wf(#[trigger] children@[j]),
        decreases n - i,
    {
        if !children[i].wf() {
            return false;
        }
        if i + 1 < n {
            if !str_lex_lt(children[i].name.as_str(), children[i + 1].name.as_str()) {
                return false;
            }
        }
        i += 1;
    }
    true
}

/// Decides whether any of the trees of `nodes` references `d`.
pub(crate) fn nodes_contain_digest(nodes: &Vec<Node>, d: &str) -> (r: bool)
    ensures
        r == digests_up_to(nodes@, nodes@.len() as int).contains(d@),
    decreases *nodes,
{
    let mut i: usize = 0;
    let mut found = false;
    while i < nodes.len()
        invariant
            i <= nodes@.len(),
            found == digests_up_to(nodes@, i as int).contains(d@),
        decreases nodes@.len() - i,
    {
        let c = nodes[i].contains_digest(d);
        found = found || c;
        i += 1;
    }
    found
}

} // verus!
