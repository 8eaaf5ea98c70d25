use vstd::prelude::*;

use crate::node::Node;
use crate::node::NodeKind;
use crate::store::find_index;
use crate::store::has_name;
use crate::store::Store;
use crate::store::StoreError;

verus! {

/// One entry of a recovered file system, in model form: a directory, a file
/// whose bytes are the object stored under `digest`, or a symbolic link.
pub enum FsEntryV {
    Dir,
    File { digest: Seq<char> },
    Symlink { target: Seq<char> },
}

/// One recovery action in model form: create `entry` at `path`.
pub struct StepV {
    pub path: Seq<Seq<char>>,
    pub entry: FsEntryV,
}

/// One recovery action for the shell to perform: create a directory, hard-link
/// the object named `digest` to a new file, or create a symbolic link. Every
/// `path` is a list of components relative to the recovery destination.
pub enum RecoverStep {
    Dir { path: Vec<String> },
    File { path: Vec<String>, digest: String },
    Symlink { path: Vec<String>, target: String },
}

pub open spec fn step_view(s: RecoverStep) -> StepV {
    match s {
        RecoverStep::Dir { path } => StepV { path: path.deep_view(), entry: FsEntryV::Dir },
        RecoverStep::File { path, digest } => StepV {
            path: path.deep_view(),
            entry: FsEntryV::File { digest: digest@ },
        },
        RecoverStep::Symlink { path, target } => StepV {
            path: path.deep_view(),
            entry: FsEntryV::Symlink { target: target@ },
        },
    }
}

pub open spec fn steps_view(steps: Seq<RecoverStep>) -> Seq<StepV> {
    steps.map(|i: int, s: RecoverStep| step_view(s))
}

/// The recovery plan of the tree rooted at `n`, placed under the directory
/// whose components are `prefix`: each entry is created before its children,
/// in sibling order.
pub open spec fn recover_plan_spec(n: Node, prefix: Seq<Seq<char>>) -> Seq<StepV>
    decreases n, 0int,
{
    let path = prefix.push(n.name@);
    match n.kind {
        NodeKind::File { digest } => seq![
            StepV { path, entry: FsEntryV::File { digest: digest@ } },
        ],
        NodeKind::Symlink { target } => seq![
            StepV { path, entry: FsEntryV::Symlink { target: target@ } },
        ],
        NodeKind::Directory { children } => seq![StepV { path, entry: FsEntryV::Dir }]
            + recover_children_spec(children@, children@.len() as int, path),
    }
}

/// The concatenated recovery plans of the first `k` children, each placed
/// under `path`.
pub open spec fn recover_children_spec(children: Seq<Node>, k: int, path: Seq<Seq<char>>) -> Seq<
    StepV,
>
    decreases children, k,
{
    if k <= 0 || k > children.len() {
        Seq::empty()
    } else {
        recover_children_spec(children, k - 1, path) + recover_plan_spec(children[k - 1], path)
    }
}

/// The file system described by the tree rooted at `n` under the directory
/// `prefix`: a map from each entry's path to what stands there.
pub open spec fn tree_map(n: Node, prefix: Seq<Seq<char>>) -> Map<Seq<Seq<char>>, FsEntryV>
    decreases n, 0int,
{
    let path = prefix.push(n.name@);
    match n.kind {
        NodeKind::File { digest } => Map::empty().insert(path, FsEntryV::File { digest: digest@ }),
        NodeKind::Symlink { target } => Map::empty().insert(
            path,
            FsEntryV::Symlink { target: target@ },
        ),
        NodeKind::Directory { children } => Map::empty().insert(
            path,
            FsEntryV::Dir,
        ).union_prefer_right(children_map(children@, children@.len() as int, path)),
    }
}

/// The combined file-system map of the first `k` children under `path`.
pub open spec fn children_map(children: Seq<Node>, k: int, path: Seq<Seq<char>>) -> Map<
    Seq<Seq<char>>,
    FsEntryV,
>
    decreases children, k,
{
    if k <= 0 || k > children.len() {
        Map::empty()
    } else {
        children_map(children, k - 1, path).union_prefer_right(tree_map(children[k - 1], path))
    }
}

/// The file system that executing a recovery plan step by step leaves behind:
/// each step creates its entry at its path, later steps winning.
pub open spec fn steps_map(steps: Seq<StepV>) -> Map<Seq<Seq<char>>, FsEntryV>
    decreases steps.len(),
{
    if steps.len() == 0 {
        Map::empty()
    } else {
        steps_map(steps.drop_last()).insert(steps.last().path, steps.last().entry)
    }
}

fn copy_names(v: &Vec<String>) -> (r: Vec<String>)
    ensures
        r.deep_view() == v.deep_view(),
{
    let mut out: Vec<String> = Vec::new();
    let mut i: usize = 0;
    while i < v.len()
        invariant
            i <= v@.len(),
            out@.len() == i,
            forall|j: int| 0 <= j < i ==> (#[trigger] out@[j])@ == v@[j]@,
        decreases v@.len() - i,
    {
        out.push(v[i].clone());
        i += 1;
    }
    proof {
        assert(out.deep_view() =~= v.deep_view());
    }
    out
}

fn copy_path(prefix: &Vec<String>, name: &String) -> (r: Vec<String>)
    ensures
        r.deep_view() == prefix.deep_view().push(name@),
{
    let mut out = copy_names(prefix);
    out.push(name.clone());
    proof {
        assert(out.deep_view() =~= prefix.deep_view().push(name@));
    }
    out
}

fn plan_node(n: &Node, prefix: &mut Vec<String>, out: &mut Vec<RecoverStep>)
    ensures
        final(prefix)@ == old(prefix)@,
        steps_view(final(out)@) == steps_view(old(out)@) + recover_plan_spec(
            *n,
            old(prefix).deep_view(),
        ),
    decreases *n,
{
    let path = copy_path(prefix, &n.name);
    match &n.kind {
        NodeKind::File { digest } => {
            out.push(RecoverStep::File { path, digest: digest.clone() });
            proof {
                assert(steps_view(out@) =~= steps_view(old(out)@) + recover_plan_spec(
                    *n,
                    old(prefix).deep_view(),
                ));
            }
        },
        NodeKind::Symlink { target } => {
            out.push(RecoverStep::Symlink { path, target: target.clone() });
            proof {
                assert(steps_view(out@) =~= steps_view(old(out)@) + recover_plan_spec(
                    *n,
                    old(prefix).deep_view(),
                ));
            }
        },
        NodeKind::Directory { children } => {
            let ghost pathv = old(prefix).deep_view().push(n.name@);
            out.push(RecoverStep::Dir { path });
            prefix.push(n.name.clone());
            proof {
                assert(prefix.deep_view() =~= pathv);
            }
            let ghost out1 = out@;
            plan_children(children, prefix, out);
            let _ = prefix.pop();
            proof {
                assert(prefix@ =~= old(prefix)@);
                assert(steps_view(out1) =~= steps_view(old(out)@) + seq![
                    StepV { path: pathv, entry: FsEntryV::Dir },
                ]);
                assert(steps_view(out@) =~= steps_view(old(out)@) + recover_plan_spec(
                    *n,
                    old(prefix).deep_view(),
                ));
            }
        },
    }
}

fn plan_children(children: &Vec<Node>, prefix: &mut Vec<String>, out: &mut Vec<RecoverStep>)
    ensures
        final(prefix)@ == old(prefix)@,
        steps_view(final(out)@) == steps_view(old(out)@) + recover_children_spec(
            children@,
            children@.len() as int,
            old(prefix).deep_view(),
        ),
    decreases *children,
{
    let ghost pathv = old(prefix).deep_view();
    let ghost out1 = out@;
    let ghost prefix1 = prefix@;
    let mut i: usize = 0;
    while i < children.len()
        invariant
            i <= children@.len(),
            prefix@ == prefix1,
            prefix1 == old(prefix)@,
            prefix.deep_view() == pathv,
            steps_view(out@) == steps_view(out1) + recover_children_spec(
                children@,
                i as int,
                pathv,
            ),
        decreases children@.len() - i,
    {
        plan_node(&children[i], prefix, out);
        proof {
            assert(steps_view(out@) =~= steps_view(out1) + recover_children_spec(
                children@,
                i + 1,
                pathv,
            ));
        }
        i += 1;
    }
}

impl Store {
    /// Looks up the root entry named `name` and returns the recovery plan
    /// that rebuilds its captured tree under a destination directory; the
    /// shell checks that the destination exists and is a directory, then
    /// performs the steps in order. A name absent from the registry is the
    /// only failure.
    pub fn get(&self, name: &str) -> (r: Result<Vec<RecoverStep>, StoreError>)
        ensures
            (r is Ok) == has_name(self.entries@, name@),
            r is Err ==> r == Err::<Vec<RecoverStep>, StoreError>(StoreError::NotFound),
            r matches Ok(plan) ==> exists|i: int|
                0 <= i < self.entries@.len() && (#[trigger] self.entries@[i]).name@ == name@ && (
                forall|j: int| 0 <= j < i ==> self.entries@[j].name@ != name@) && steps_view(plan@)
                    == recover_plan_spec(self.entries@[i], Seq::empty()),
    {
        match find_index(&self.entries, name) {
            None => Err(StoreError::NotFound),
            Some(i) => {
                let mut prefix: Vec<String> = Vec::new();
                let mut out: Vec<RecoverStep> = Vec::new();
                plan_node(&self.entries[i], &mut prefix, &mut out);
                proof {
                    assert(prefix.deep_view() =~= Seq::<Seq<char>>::empty());
                    assert(steps_view(out@) =~= recover_plan_spec(
                        self.entries@[i as int],
                        Seq::empty(),
                    ));
                }
                Ok(out)
            },
        }
    }
}

/// One deduplicating link action for the shell to perform while an `add`
/// populates the object store: hard-link the source file at `source`
/// (components relative to the added path) to the object named `digest`,
/// unless that object already exists.
pub struct LinkStep {
    pub source: Vec<String>,
    pub digest: String,
}

/// A link action in model form.
pub struct LinkStepV {
    pub source: Seq<Seq<char>>,
    pub digest: Seq<char>,
}

pub open spec fn link_step_view(s: LinkStep) -> LinkStepV {
    LinkStepV { source: s.source.deep_view(), digest: s.digest@ }
}

pub open spec fn link_steps_view(steps: Seq<LinkStep>) -> Seq<LinkStepV> {
    steps.map(|i: int, s: LinkStep| link_step_view(s))
}

/// The link plan of the tree rooted at `n`, whose source lies at the path
/// with components `prefix`: one step per captured file, in tree order;
/// symlinks and directories place nothing in the object store.
pub open spec fn link_plan_spec(n: Node, prefix: Seq<Seq<char>>) -> Seq<LinkStepV>
    decreases n, 0int,
{
    match n.kind {
        NodeKind::File { digest } => seq![LinkStepV { source: prefix, digest: digest@ }],
        NodeKind::Symlink { .. } => Seq::empty(),
        NodeKind::Directory { children } => link_children_spec(
            children@,
            children@.len() as int,
            prefix,
        ),
    }
}

/// The concatenated link plans of the first `k` children of a directory that
/// lies at `prefix`.
pub open spec fn link_children_spec(children: Seq<Node>, k: int, prefix: Seq<Seq<char>>) -> Seq<
    LinkStepV,
>
    decreases children, k,
{
    if k <= 0 || k > children.len() {
        Seq::empty()
    } else {
        link_children_spec(children, k - 1, prefix) + link_plan_spec(
            children[k - 1],
            prefix.push(children[k - 1].name@),
        )
    }
}

fn link_node(n: &Node, prefix: &mut Vec<String>, out: &mut Vec<LinkStep>)
    ensures
        final(prefix)@ == old(prefix)@,
        link_steps_view(final(out)@) == link_steps_view(old(out)@) + link_plan_spec(
            *n,
            old(prefix).deep_view(),
        ),
    decreases *n,
{
    match &n.kind {
        NodeKind::File { digest } => {
            let source = copy_names(prefix);
            out.push(LinkStep { source, digest: digest.clone() });
            proof {
                assert(link_steps_view(out@) =~= link_steps_view(old(out)@) + link_plan_spec(
                    *n,
                    old(prefix).deep_view(),
                ));
            }
        },
        NodeKind::Symlink { .. } => {
            proof {
                assert(link_steps_view(out@) =~= link_steps_view(old(out)@) + link_plan_spec(
                    *n,
                    old(prefix).deep_view(),
                ));
            }
        },
        NodeKind::Directory { children } => {
            link_children(children, prefix, out);
            proof {
                assert(link_steps_view(out@) =~= link_steps_view(old(out)@) + link_plan_spec(
                    *n,
                    old(prefix).deep_view(),
                ));
            }
        },
    }
}

fn link_children(children: &Vec<Node>, prefix: &mut Vec<String>, out: &mut Vec<LinkStep>)
    ensures
        final(prefix)@ == old(prefix)@,
        link_steps_view(final(out)@) == link_steps_view(old(out)@) + link_children_spec(
            children@,
            children@.len() as int,
            old(prefix).deep_view(),
        ),
    decreases *children,
{
    let ghost pv = old(prefix).deep_view();
    let ghost out1 = out@;
    let ghost prefix1 = prefix@;
    let mut i: usize = 0;
    while i < children.len()
        invariant
            i <= children@.len(),
            prefix@ == prefix1,
            prefix1 == old(prefix)@,
            prefix.deep_view() == pv,
            link_steps_view(out@) == link_steps_view(out1) + link_children_spec(
                children@,
                i as int,
                pv,
            ),
        decreases children@.len() - i,
    {
        prefix.push(children[i].name.clone());
        proof {
            assert(prefix.deep_view() =~= pv.push(children@[i as int].name@));
        }
        link_node(&children[i], prefix, out);
        let _ = prefix.pop();
        proof {
            assert(prefix@ =~= prefix1);
            assert(link_steps_view(out@) =~= link_steps_view(out1) + link_children_spec(
                children@,
                i + 1,
                pv,
            ));
        }
        i += 1;
    }
}

/// The link plan of a whole captured tree, the source of the capture lying at
/// the path the components of which the shell prepends: one deduplicating
/// hard link per captured file.
pub fn link_plan(root: &Node) -> (r: Vec<LinkStep>)
    ensures
        link_steps_view(r@) == link_plan_spec(*root, Seq::empty()),
{
    let mut prefix: Vec<String> = Vec::new();
    let mut out: Vec<LinkStep> = Vec::new();
    link_node(root, &mut prefix, &mut out);
    proof {
        assert(prefix.deep_view() =~= Seq::<Seq<char>>::empty());
        assert(link_steps_view(out@) =~= link_plan_spec(*root, Seq::empty()));
    }
    out
}

} // verus!
