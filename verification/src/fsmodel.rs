//! A filesystem snapshot: the entry-lookup capability the resolver reads.
//!
//! Each absolute path maps to at most one node: a regular file (with its
//! text, read only for manifest files), a directory, or a symbolic link
//! with its target path.  A query sees the node stored at the queried path
//! itself; a snapshot models a symlinked subtree by also storing the nodes
//! that the operating system makes reachable through the link.
use vstd::prelude::*;
use crate::paths::{PathV, path_eq};

verus! {

/// One filesystem entry.
pub enum FsNode {
    File(String),
    Dir,
    Symlink(Vec<String>),
}

/// The mathematical value of an entry.
pub enum FsNodeV {
    File(Seq<char>),
    Dir,
    Symlink(PathV),
}

/// The mathematical value of a whole snapshot.
pub type FsV = Map<PathV, FsNodeV>;

pub open spec fn node_sem(n: FsNode) -> FsNodeV {
    match n {
        FsNode::File(c) => FsNodeV::File(c@),
        FsNode::Dir => FsNodeV::Dir,
        FsNode::Symlink(t) => FsNodeV::Symlink(t.deep_view()),
    }
}

/// A snapshot of the filesystem entries the resolver may consult.
pub struct FileSystem {
    pub nodes: Vec<(Vec<String>, FsNode)>,
}

impl FileSystem {
    /// Each path occurs at most once.
    pub open spec fn wf(self) -> bool {
        forall|i: int, j: int|
            0 <= i < j < self.nodes@.len() ==> self.nodes@[i].0.deep_view()
                != self.nodes@[j].0.deep_view()
    }

    pub open spec fn sem(self) -> FsV {
        map_of(self.nodes@)
    }

    pub fn new() -> (r: FileSystem)
        ensures
            r.wf(),
            r.sem() == Map::<PathV, FsNodeV>::empty(),
    {
        FileSystem { nodes: Vec::new() }
    }

    /// Stores `node` at `path`, replacing any node already there.
    pub fn put(&mut self, path: Vec<String>, node: FsNode)
        requires
            old(self).wf(),
        ensures
            final(self).wf(),
            final(self).sem() == old(self).sem().insert(path.deep_view(), node_sem(node)),
    {
        let n = self.nodes.len();
        let mut i: usize = 0;
        while i < n
            invariant
                0 <= i <= n,
                n == self.nodes@.len(),
                self.wf(),
                self.nodes@ == old(self).nodes@,
                forall|j: int| 0 <= j < i ==> self.nodes@[j].0.deep_view() != path.deep_view(),
            decreases n - i,
        {
            if path_eq(&self.nodes[i].0, &path) {
                let ghost before = self.nodes@;
                self.nodes[i].1 = node;
                proof {
                    assert(self.nodes@ =~= before.update(
                        i as int,
                        (before[i as int].0, self.nodes@[i as int].1),
                    ));
                    lemma_map_of_update(before, i as int, self.nodes@[i as int]);
                    assert forall|j: int| 0 <= j < self.nodes@.len() implies self.nodes@[j].0
                        == before[j].0 by {}
                    assert(self.sem() =~= old(self).sem().insert(
                        path.deep_view(),
                        node_sem(node),
                    ));
                }
                return ;
            }
            i += 1;
        }
        let ghost k = path.deep_view();
        let ghost v = node_sem(node);
        self.nodes.push((path, node));
        proof {
            assert(self.nodes@.drop_last() =~= old(self).nodes@);
            assert(self.sem() =~= old(self).sem().insert(k, v));
        }
    }

    /// The node stored at `path`, if any.
    pub fn lookup(&self, path: &Vec<String>) -> (r: Option<&FsNode>)
        requires
            self.wf(),
        ensures
            match r {
                Some(n) => self.sem().contains_key(path.deep_view()) && self.sem()[path.deep_view()]
                    == node_sem(*n),
                None => !self.sem().contains_key(path.deep_view()),
            },
    {
        let n = self.nodes.len();
        let mut i: usize = 0;
        while i < n
            invariant
                0 <= i <= n,
                n == self.nodes@.len(),
                self.wf(),
                forall|j: int| 0 <= j < i ==> self.nodes@[j].0.deep_view() != path.deep_view(),
            decreases n - i,
        {
            if path_eq(&self.nodes[i].0, &path) {
                proof {
                    lemma_map_of_index(self.nodes@, i as int);
                }
                return Some(&self.nodes[i].1);
            }
            i += 1;
        }
        proof {
            lemma_map_of_absent(self.nodes@, path.deep_view());
        }
        None
    }

    /// Whether a regular file sits at `path`.
    pub fn is_file(&self, path: &Vec<String>) -> (r: bool)
        requires
            self.wf(),
        ensures
            r == fs_is_file(self.sem(), path.deep_view()),
    {
        match self.lookup(path) {
            Some(n) => matches!(n, FsNode::File(_)),
            None => false,
        }
    }

    /// Whether a directory sits at `path`.
    pub fn is_dir(&self, path: &Vec<String>) -> (r: bool)
        requires
            self.wf(),
        ensures
            r == fs_is_dir(self.sem(), path.deep_view()),
    {
        match self.lookup(path) {
            Some(n) => matches!(n, FsNode::Dir),
            None => false,
        }
    }
}

/// Whether the snapshot holds a regular file at `p`.
pub open spec fn fs_is_file(m: FsV, p: PathV) -> bool {
    m.contains_key(p) && m[p] is File
}

/// Whether the snapshot holds a directory at `p`.
pub open spec fn fs_is_dir(m: FsV, p: PathV) -> bool {
    m.contains_key(p) && m[p] is Dir
}

/// The text of the file at `p`.
pub open spec fn fs_content(m: FsV, p: PathV) -> Seq<char> {
    m[p]->File_0
}

/// The target of the symlink at `p`, if `p` is one.
pub open spec fn fs_link(m: FsV, p: PathV) -> Option<PathV> {
    if m.contains_key(p) && m[p] is Symlink {
        Some(m[p]->Symlink_0)
    } else {
        None
    }
}

pub open spec fn map_of(nodes: Seq<(Vec<String>, FsNode)>) -> FsV
    decreases nodes,
{
    if nodes.len() == 0 {
        Map::empty()
    } else {
        map_of(nodes.drop_last()).insert(
            nodes.last().0.deep_view(),
            node_sem(nodes.last().1),
        )
    }
}

proof fn lemma_map_of_index(nodes: Seq<(Vec<String>, FsNode)>, i: int)
    requires
        0 <= i < nodes.len(),
        forall|j: int| 0 <= j < nodes.len() && j != i ==> nodes[j].0.deep_view()
            != nodes[i].0.deep_view(),
    ensures
        map_of(nodes).contains_key(nodes[i].0.deep_view()),
        map_of(nodes)[nodes[i].0.deep_view()] == node_sem(nodes[i].1),
    decreases nodes,
{
    if i < nodes.len() - 1 {
        lemma_map_of_index(nodes.drop_last(), i);
    }
}

proof fn lemma_map_of_absent(nodes: Seq<(Vec<String>, FsNode)>, p: PathV)
    requires
        forall|j: int| 0 <= j < nodes.len() ==> nodes[j].0.deep_view() != p,
    ensures
        !map_of(nodes).contains_key(p),
    decreases nodes,
{
    if nodes.len() > 0 {
        lemma_map_of_absent(nodes.drop_last(), p);
    }
}

proof fn lemma_map_of_update(nodes: Seq<(Vec<String>, FsNode)>, i: int, x: (Vec<String>, FsNode))
    requires
        0 <= i < nodes.len(),
        x.0.deep_view() == nodes[i].0.deep_view(),
        forall|j: int, k: int|
            0 <= j < k < nodes.len() ==> nodes[j].0.deep_view() != nodes[k].0.deep_view(),
    ensures
        map_of(nodes.update(i, x)) == map_of(nodes).insert(nodes[i].0.deep_view(), node_sem(x.1)),
    decreases nodes,
{
    let u = nodes.update(i, x);
    if i == nodes.len() - 1 {
        assert(u.drop_last() =~= nodes.drop_last());
        assert(map_of(u) =~= map_of(nodes).insert(nodes[i].0.deep_view(), node_sem(x.1)));
    } else {
        assert(u.drop_last() =~= nodes.drop_last().update(i, x));
        lemma_map_of_update(nodes.drop_last(), i, x);
        assert(map_of(u) =~= map_of(nodes).insert(nodes[i].0.deep_view(), node_sem(x.1)));
    }
}

} // verus!
