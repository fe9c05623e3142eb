//! Value-level model of the filesystem pieces the manager works on: a
//! module directory with its flags, scripts and `system/` subtree, the set
//! of paths present on the live root, and the bind-mount planning walk.
//!
//! The walk mirrors a module's `system/` tree onto the live root: one bind
//! mount per regular file whose counterpart already exists on the root,
//! depth first in entry order.  A directory whose counterpart is absent is
//! pruned whole; a file whose counterpart is absent is skipped; entries of
//! any other kind are never mounted.  The walk only plans: the surrounding
//! binary performs the bind mounts in plan order and stops at the first
//! failure, leaving earlier mounts in place.

use vstd::prelude::*;

use crate::strutil::str_eq;

verus! {

/// One node of a file tree: a directory with named children, a regular
/// file, or anything else (symlink, device, socket, fifo).
#[derive(Debug)]
pub enum FsNode {
    Dir { entries: Vec<FsEntry> },
    File,
    Other,
}

/// A named directory entry.
#[derive(Debug)]
pub struct FsEntry {
    pub name: String,
    pub node: FsNode,
}

/// A module directory, as the lifecycle logic observes it: the text of its
/// `module.prop` if present, which lifecycle scripts exist, which flag files
/// are set, and its `system/` subtree if present.
#[derive(Debug)]
pub struct ModuleDir {
    pub prop: Option<String>,
    pub has_install_script: bool,
    pub has_uninstall_script: bool,
    pub has_boot_script: bool,
    pub uninstall_flag: bool,
    pub disable_flag: bool,
    pub system: Option<FsNode>,
}

/// The set of live-root paths that exist, each path a sequence of
/// components relative to `/`.
pub struct RootPaths {
    pub present: Vec<Vec<String>>,
}

impl RootPaths {
    /// The set of root-relative paths that exist on the live root.
    pub open spec fn view(&self) -> Set<Seq<Seq<char>>> {
        Set::new(|p: Seq<Seq<char>>| self.present.deep_view().contains(p))
    }

    /// Whether the live root has an entry at `path`.
    pub fn contains_path(&self, path: &Vec<String>) -> (r: bool)
        ensures
            r == self@.contains(path.deep_view()),
    {
        let n = self.present.len();
        let mut i: usize = 0;
        while i < n
            invariant
                0 <= i <= n,
                n == self.present@.len(),
                forall|j: int| 0 <= j < i ==> self.present@[j].deep_view() != path.deep_view(),
            decreases n - i,
        {
            if path_eq(&self.present[i], path) {
                proof {
                    assert(self.present.deep_view()[i as int] == path.deep_view());
                }
                return true;
            }
            i = i + 1;
        }
        proof {
            assert forall|j: int| 0 <= j < self.present.deep_view().len() implies self.present.deep_view()[j]
                != path.deep_view() by {
                assert(self.present.deep_view()[j] == self.present@[j].deep_view());
            }
        }
        false
    }
}

/// Component-wise equality of two paths.
pub fn path_eq(a: &Vec<String>, b: &Vec<String>) -> (r: bool)
    ensures
        r == (a.deep_view() == b.deep_view()),
{
    let n = a.len();
    if n != b.len() {
        proof {
            assert(a.deep_view().len() != b.deep_view().len());
        }
        return false;
    }
    let mut i: usize = 0;
    while i < n
        invariant
            0 <= i <= n,
            n == a@.len(),
            n == b@.len(),
            forall|j: int| 0 <= j < i ==> a@[j]@ == b@[j]@,
        decreases n - i,
    {
        if !str_eq(a[i].as_str(), b[i].as_str()) {
            proof {
                assert(a.deep_view()[i as int] == a@[i as int]@);
                assert(b.deep_view()[i as int] == b@[i as int]@);
            }
            return false;
        }
        i = i + 1;
    }
    proof {
        assert(a.deep_view() =~= b.deep_view());
    }
    true
}

/// A clone of a path, component by component.
pub fn clone_path(p: &Vec<String>) -> (r: Vec<String>)
    ensures
        r@ == p@,
{
    let mut out: Vec<String> = Vec::new();
    let n = p.len();
    let mut i: usize = 0;
    while i < n
        invariant
            0 <= i <= n,
            n == p@.len(),
            out@ =~= p@.take(i as int),
        decreases n - i,
    {
        out.push(p[i].clone());
        i = i + 1;
    }
    proof {
        assert(out@ =~= p@);
    }
    out
}

/// The mounts one entry contributes: nothing if its live-root counterpart
/// is absent or it is neither file nor directory; the path itself for a
/// file; the plans of its children for a directory (the directory node
/// itself is never mounted).
pub open spec fn entry_plan(e: FsEntry, prefix: Seq<Seq<char>>, root: Set<Seq<Seq<char>>>) -> Seq<
    Seq<Seq<char>>,
>
    decreases e,
{
    let p = prefix.push(e.name@);
    match e.node {
        FsNode::Dir { entries } => {
            if root.contains(p) {
                entries_plan(entries@, p, root)
            } else {
                Seq::empty()
            }
        },
        FsNode::File => {
            if root.contains(p) {
                seq![p]
            } else {
                Seq::empty()
            }
        },
        FsNode::Other => Seq::empty(),
    }
}

/// The mounts a directory's entries contribute, in entry order.
pub open spec fn entries_plan(
    es: Seq<FsEntry>,
    prefix: Seq<Seq<char>>,
    root: Set<Seq<Seq<char>>>,
) -> Seq<Seq<Seq<char>>>
    decreases es,
{
    if es.len() == 0 {
        Seq::empty()
    } else {
        entry_plan(es[0], prefix, root) + entries_plan(es.skip(1), prefix, root)
    }
}

/// Splitting the plan of a prefix of entries off the next entry.
proof fn lemma_entries_plan_snoc(
    es: Seq<FsEntry>,
    i: int,
    prefix: Seq<Seq<char>>,
    root: Set<Seq<Seq<char>>>,
)
    requires
        0 <= i < es.len(),
    ensures
        entries_plan(es.take(i + 1), prefix, root) == entries_plan(es.take(i), prefix, root)
            + entry_plan(es[i], prefix, root),
    decreases i,
{
    if i == 0 {
        let t1 = es.take(1);
        assert(t1.len() == 1);
        assert(t1[0] == es[0]);
        assert(t1.skip(1) =~= Seq::<FsEntry>::empty());
        assert(entries_plan(Seq::<FsEntry>::empty(), prefix, root) == Seq::<
            Seq<Seq<char>>,
        >::empty());
        assert(entries_plan(t1, prefix, root) == entry_plan(t1[0], prefix, root) + entries_plan(
            t1.skip(1),
            prefix,
            root,
        ));
        assert(es.take(0) =~= Seq::<FsEntry>::empty());
        assert(entries_plan(es.take(1), prefix, root) =~= entry_plan(es[0], prefix, root));
        assert(entries_plan(es.take(0), prefix, root) + entry_plan(es[0], prefix, root) =~= entry_plan(
            es[0],
            prefix,
            root,
        ));
    } else {
        let tail = es.skip(1);
        lemma_entries_plan_snoc(tail, i - 1, prefix, root);
        assert(es.take(i + 1)[0] == es[0]);
        assert(es.take(i)[0] == es[0]);
        assert(es.take(i + 1).skip(1) =~= tail.take(i));
        assert(es.take(i).skip(1) =~= tail.take(i - 1));
        assert(tail[i - 1] == es[i]);
        assert((entry_plan(es[0], prefix, root) + entries_plan(tail.take(i - 1), prefix, root))
            + entry_plan(es[i], prefix, root) =~= entry_plan(es[0], prefix, root) + (entries_plan(
            tail.take(i - 1),
            prefix,
            root,
        ) + entry_plan(es[i], prefix, root)));
    }
}

/// Why a module cannot be mounted at all.
#[derive(Debug)]
pub enum MountError {
    SystemDirMissing,
}

/// The module has a `system/` subtree that is a directory.
pub open spec fn has_system_dir(m: ModuleDir) -> bool {
    m.system matches Some(n) && n is Dir
}

/// The entries of the module's `system/` subtree.
pub open spec fn system_entries(m: ModuleDir) -> Seq<FsEntry> {
    match m.system {
        Some(FsNode::Dir { entries }) => entries@,
        _ => Seq::empty(),
    }
}

fn walk_entries(es: &Vec<FsEntry>, prefix: &Vec<String>, root: &RootPaths, out: &mut Vec<Vec<String>>)
    ensures
        final(out).deep_view() == old(out).deep_view() + entries_plan(
            es@,
            prefix.deep_view(),
            root@,
        ),
    decreases es@,
{
    let n = es.len();
    let mut i: usize = 0;
    while i < n
        invariant
            0 <= i <= n,
            n == es@.len(),
            out.deep_view() == old(out).deep_view() + entries_plan(
                es@.take(i as int),
                prefix.deep_view(),
                root@,
            ),
        decreases n - i,
    {
        let e = &es[i];
        let mut p = clone_path(prefix);
        p.push(e.name.clone());
        proof {
            assert(p.deep_view() =~= prefix.deep_view().push(e.name@));
        }
        match &e.node {
            FsNode::Dir { entries: child } => {
                if root.contains_path(&p) {
                    proof {
                        assert(decreases_to!(es@ => es@[i as int]));
                        assert(decreases_to!(es@[i as int] => es@[i as int].node));
                        assert(es@[i as int].node->Dir_entries == *child);
                        assert(decreases_to!(es@[i as int].node => es@[i as int].node->Dir_entries));
                        assert(decreases_to!(*child => child@));
                    }
                    walk_entries(child, &p, root, out);
                }
            },
            FsNode::File => {
                if root.contains_path(&p) {
                    let ghost pd = p.deep_view();
                    out.push(p);
                    proof {
                        assert(out.deep_view() =~= old(out).deep_view() + entries_plan(
                            es@.take(i as int),
                            prefix.deep_view(),
                            root@,
                        ) + seq![pd]);
                    }
                }
            },
            FsNode::Other => {},
        }
        proof {
            lemma_entries_plan_snoc(es@, i as int, prefix.deep_view(), root@);
            assert(out.deep_view() =~= old(out).deep_view() + entries_plan(
                es@.take(i + 1),
                prefix.deep_view(),
                root@,
            ));
        }
        i = i + 1;
    }
    proof {
        assert(es@.take(n as int) =~= es@);
    }
}

/// Plan the activation of a module: one bind mount per regular file under
/// its `system/` subtree whose counterpart exists on the live root, each
/// plan entry the root-relative path of both the source (under `system/`)
/// and the destination (under `/`).  Fails only when the module has no
/// `system/` directory.
pub fn mount_module(module: &ModuleDir, root: &RootPaths) -> (r: Result<Vec<Vec<String>>, MountError>)
    ensures
        match r {
            Ok(plan) => has_system_dir(*module) && plan.deep_view() == entries_plan(
                system_entries(*module),
                Seq::empty(),
                root@,
            ),
            Err(e) => !has_system_dir(*module) && e is SystemDirMissing,
        },
{
    match &module.system {
        Some(FsNode::Dir { entries }) => {
            let mut out: Vec<Vec<String>> = Vec::new();
            let prefix: Vec<String> = Vec::new();
            proof {
                assert(out.deep_view() =~= Seq::<Seq<Seq<char>>>::empty());
                assert(prefix.deep_view() =~= Seq::<Seq<char>>::empty());
            }
            walk_entries(entries, &prefix, root, &mut out);
            proof {
                assert(out.deep_view() =~= entries_plan(
                    system_entries(*module),
                    Seq::empty(),
                    root@,
                ));
            }
            Ok(out)
        },
        _ => Err(MountError::SystemDirMissing),
    }
}

/// Law: an entry whose live-root counterpart does not exist contributes no
/// mounts; the plan equals the plan of the remaining entries alone.
proof fn lemma_absent_entry_skipped(
    es: Seq<FsEntry>,
    i: int,
    prefix: Seq<Seq<char>>,
    root: Set<Seq<Seq<char>>>,
)
    requires
        0 <= i < es.len(),
        !root.contains(prefix.push(es[i].name@)),
        !(es[i].node is Other),
    ensures
        entries_plan(es, prefix, root) == entries_plan(es.remove(i), prefix, root),
    decreases i,
{
    if i == 0 {
        assert(entry_plan(es[0], prefix, root) =~= Seq::<Seq<Seq<char>>>::empty());
        assert(es.remove(0) =~= es.skip(1));
        assert(Seq::<Seq<Seq<char>>>::empty() + entries_plan(es.skip(1), prefix, root)
            =~= entries_plan(es.skip(1), prefix, root));
    } else {
        let tail = es.skip(1);
        assert(tail[i - 1] == es[i]);
        lemma_absent_entry_skipped(tail, i - 1, prefix, root);
        assert(es.remove(i)[0] == es[0]);
        assert(es.remove(i).skip(1) =~= tail.remove(i - 1));
    }
}

/// Law: a regular file whose live-root counterpart does not exist is
/// skipped — no mount of it is planned — and the walk still covers every
/// other entry: the plan equals the plan with that entry removed.
pub proof fn lemma_walk_skips_missing_file(
    es: Seq<FsEntry>,
    i: int,
    prefix: Seq<Seq<char>>,
    root: Set<Seq<Seq<char>>>,
)
    requires
        0 <= i < es.len(),
        es[i].node is File,
        !root.contains(prefix.push(es[i].name@)),
    ensures
        entries_plan(es, prefix, root) == entries_plan(es.remove(i), prefix, root),
{
    lemma_absent_entry_skipped(es, i, prefix, root);
}

/// Law: a directory whose live-root counterpart does not exist is pruned
/// whole — nothing under it is planned, without recursing — and the walk
/// still covers every other entry: the plan equals the plan with that
/// entire subtree removed.
pub proof fn lemma_walk_prunes_missing_dir(
    es: Seq<FsEntry>,
    i: int,
    prefix: Seq<Seq<char>>,
    root: Set<Seq<Seq<char>>>,
)
    requires
        0 <= i < es.len(),
        es[i].node is Dir,
        !root.contains(prefix.push(es[i].name@)),
    ensures
        entries_plan(es, prefix, root) == entries_plan(es.remove(i), prefix, root),
{
    lemma_absent_entry_skipped(es, i, prefix, root);
}

proof fn lemma_entry_plan_shape(e: FsEntry, prefix: Seq<Seq<char>>, root: Set<Seq<Seq<char>>>)
    ensures
        forall|q: Seq<Seq<char>>| #[trigger]
            entry_plan(e, prefix, root).contains(q) ==> q.len() > prefix.len() && q.take(
                prefix.len() as int,
            ) == prefix && q[prefix.len() as int] == e.name@,
    decreases e,
{
    let p = prefix.push(e.name@);
    assert(p.take(prefix.len() as int) =~= prefix);
    match e.node {
        FsNode::Dir { entries } => {
            if root.contains(p) {
                lemma_entries_plan_shape(entries@, p, root);
                assert forall|q: Seq<Seq<char>>| #[trigger]
                    entry_plan(e, prefix, root).contains(q) implies q.len() > prefix.len()
                    && q.take(prefix.len() as int) == prefix && q[prefix.len() as int]
                    == e.name@ by {
                    assert(entries_plan(entries@, p, root).contains(q));
                    assert(q.take(p.len() as int) == p);
                    assert(q.take(p.len() as int).take(prefix.len() as int) =~= q.take(
                        prefix.len() as int,
                    ));
                    assert(q[prefix.len() as int] == q.take(p.len() as int)[prefix.len() as int]);
                }
            }
        },
        FsNode::File => {
        },
        FsNode::Other => {
        },
    }
}

proof fn lemma_entries_plan_shape(
    es: Seq<FsEntry>,
    prefix: Seq<Seq<char>>,
    root: Set<Seq<Seq<char>>>,
)
    ensures
        forall|q: Seq<Seq<char>>| #[trigger]
            entries_plan(es, prefix, root).contains(q) ==> q.len() > prefix.len() && q.take(
                prefix.len() as int,
            ) == prefix && (exists|j: int|
                0 <= j < es.len() && q[prefix.len() as int] == (#[trigger] es[j]).name@),
    decreases es,
{
    if es.len() > 0 {
        lemma_entry_plan_shape(es[0], prefix, root);
        lemma_entries_plan_shape(es.skip(1), prefix, root);
        assert forall|q: Seq<Seq<char>>| #[trigger]
            entries_plan(es, prefix, root).contains(q) implies q.len() > prefix.len() && q.take(
            prefix.len() as int,
        ) == prefix && (exists|j: int|
            0 <= j < es.len() && q[prefix.len() as int] == (#[trigger] es[j]).name@) by {
            let head = entry_plan(es[0], prefix, root);
            let rest = entries_plan(es.skip(1), prefix, root);
            let k = choose|k: int| 0 <= k < (head + rest).len() && (head + rest)[k] == q;
            if k < head.len() {
                assert(head.contains(q));
                assert(q[prefix.len() as int] == es[0].name@);
            } else {
                assert(rest.contains(q));
                let j = choose|j: int|
                    0 <= j < es.skip(1).len() && q[prefix.len() as int] == (#[trigger] es.skip(
                        1,
                    )[j]).name@;
                assert(es.skip(1)[j] == es[j + 1]);
                assert(q[prefix.len() as int] == es[j + 1].name@);
            }
        }
    }
}

/// Law: for a regular file whose live-root counterpart does not exist, no
/// mount of its target path is planned at all, as long as no sibling entry
/// shares its name.
pub proof fn lemma_missing_file_never_planned(
    es: Seq<FsEntry>,
    i: int,
    prefix: Seq<Seq<char>>,
    root: Set<Seq<Seq<char>>>,
)
    requires
        0 <= i < es.len(),
        es[i].node is File,
        !root.contains(prefix.push(es[i].name@)),
        forall|j: int| 0 <= j < es.len() && j != i ==> (#[trigger] es[j]).name@ != es[i].name@,
    ensures
        !entries_plan(es, prefix, root).contains(prefix.push(es[i].name@)),
{
    let p = prefix.push(es[i].name@);
    lemma_walk_skips_missing_file(es, i, prefix, root);
    lemma_entries_plan_shape(es.remove(i), prefix, root);
    if entries_plan(es, prefix, root).contains(p) {
        let j = choose|j: int|
            0 <= j < es.remove(i).len() && p[prefix.len() as int] == (#[trigger] es.remove(
                i,
            )[j]).name@;
        let j0 = if j < i {
            j
        } else {
            j + 1
        };
        assert(es.remove(i)[j] == es[j0]);
        assert(p[prefix.len() as int] == es[i].name@);
    }
}

/// Law: for a directory whose live-root counterpart does not exist, no
/// planned mount lies under it — no planned path carries its name right
/// after the prefix — as long as no sibling entry shares its name.
pub proof fn lemma_nothing_planned_under_missing_dir(
    es: Seq<FsEntry>,
    i: int,
    prefix: Seq<Seq<char>>,
    root: Set<Seq<Seq<char>>>,
)
    requires
        0 <= i < es.len(),
        es[i].node is Dir,
        !root.contains(prefix.push(es[i].name@)),
        forall|j: int| 0 <= j < es.len() && j != i ==> (#[trigger] es[j]).name@ != es[i].name@,
    ensures
        forall|q: Seq<Seq<char>>| #[trigger]
            entries_plan(es, prefix, root).contains(q) ==> q[prefix.len() as int] != es[i].name@,
{
    lemma_walk_prunes_missing_dir(es, i, prefix, root);
    lemma_entries_plan_shape(es.remove(i), prefix, root);
    assert forall|q: Seq<Seq<char>>| #[trigger]
        entries_plan(es, prefix, root).contains(q) implies q[prefix.len() as int]
        != es[i].name@ by {
        let j = choose|j: int|
            0 <= j < es.remove(i).len() && q[prefix.len() as int] == (#[trigger] es.remove(
                i,
            )[j]).name@;
        let j0 = if j < i {
            j
        } else {
            j + 1
        };
        assert(es.remove(i)[j] == es[j0]);
    }
}

} // verus!
