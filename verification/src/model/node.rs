use vstd::prelude::*;

use crate::model::sorting::{
    is_permutation, lemma_seq_sum_permuted, seq_sum, stable_sort_by_key, stable_sort_witness,
    SortKey,
};

verus! {

/// Type of filesystem entry.
#[derive(Debug, Clone, Copy, PartialEq, Eq, Structural)]
pub enum NodeType {
    File,
    Dir,
    Symlink,
}

/// A node in the disk usage tree.
///
/// `modified` is the modification time in nanoseconds relative to the Unix
/// epoch (negative before it), when the filesystem reported one.
#[derive(Debug)]
pub struct DiskNode {
    pub name: String,
    pub size: u64,
    pub node_type: NodeType,
    pub children: Vec<DiskNode>,
    pub depth: usize,
    pub modified: Option<i128>,
}

/// Number of file and symlink nodes in the subtree rooted at `n`.
pub open spec fn node_files(n: DiskNode) -> nat
    decreases n,
{
    match n.node_type {
        NodeType::Dir => children_files(n.children@),
        _ => 1,
    }
}

/// Number of file and symlink nodes in a sequence of subtrees.
pub open spec fn children_files(s: Seq<DiskNode>) -> nat
    decreases s,
{
    if s.len() == 0 {
        0
    } else {
        children_files(s.drop_last()) + node_files(s.last())
    }
}

/// Number of directory nodes strictly below `n`.
pub open spec fn node_dirs(n: DiskNode) -> nat
    decreases n,
{
    children_dirs(n.children@)
}

/// Number of directory nodes in a sequence of subtrees, the subtrees' roots included.
pub open spec fn children_dirs(s: Seq<DiskNode>) -> nat
    decreases s,
{
    if s.len() == 0 {
        0
    } else {
        children_dirs(s.drop_last()) + (if s.last().node_type == NodeType::Dir {
            1nat
        } else {
            0nat
        }) + node_dirs(s.last())
    }
}

impl SortKey for DiskNode {
    /// Larger nodes come first.
    open spec fn key_spec(&self) -> int {
        -(self.size as int)
    }

    fn sort_key(&self) -> (k: i128) {
        -(self.size as i128)
    }
}

/// The order that `sort_children_by_size` gives the children `new` of a node whose
/// children were `old`: `new[k]` comes from `old[p[k]]`, sizes are non-increasing, and
/// children of equal size keep their relative order.
pub open spec fn size_order(new: Seq<DiskNode>, old: Seq<DiskNode>, p: Seq<int>) -> bool {
    &&& new.len() == old.len()
    &&& is_permutation(p, old.len() as int)
    &&& forall|i: int, j: int|
        0 <= i < j < new.len() ==> (#[trigger] new[i]).size >= (#[trigger] new[j]).size
    &&& forall|i: int, j: int|
        0 <= i < j < new.len() && (#[trigger] new[i]).size == (#[trigger] new[j]).size ==> p[i]
            < p[j]
}

/// `new` is `old` with the children of every node in it put in the order `size_order`
/// describes; nothing else differs.
pub open spec fn sorted_from(new: DiskNode, old: DiskNode) -> bool
    decreases old,
{
    &&& new.name == old.name
    &&& new.size == old.size
    &&& new.node_type == old.node_type
    &&& new.depth == old.depth
    &&& new.modified == old.modified
    &&& exists|p: Seq<int>|
        #[trigger] size_order(new.children@, old.children@, p) && forall|k: int|
            0 <= k < new.children@.len() ==> sorted_from(
                #[trigger] new.children@[k],
                old.children@[p[k]],
            )
}

impl DiskNode {
    pub fn new(name: String, size: u64, node_type: NodeType, depth: usize) -> (r: Self)
        ensures
            r.name@ == name@,
            r.size == size,
            r.node_type == node_type,
            r.children@.len() == 0,
            r.depth == depth,
            r.modified is None,
    {
        DiskNode { name, size, node_type, children: Vec::new(), depth, modified: None }
    }

    /// Total number of file nodes in this subtree (recursive).
    pub fn total_files(&self) -> (r: u64)
        requires
            node_files(*self) <= u64::MAX,
        ensures
            r == node_files(*self),
        decreases self,
    {
        match self.node_type {
            NodeType::Dir => {
                let mut sum: u64 = 0;
                let mut i: usize = 0;
                proof {
                    lemma_children_files_prefix(self.children@, 0);
                }
                while i < self.children.len()
                    invariant
                        i <= self.children@.len(),
                        self.node_type == NodeType::Dir,
                        node_files(*self) <= u64::MAX,
                        sum == children_files(self.children@.subrange(0, i as int)),
                    decreases self.children@.len() - i,
                {
                    proof {
                        lemma_children_files_prefix(self.children@, i as int + 1);
                        assert(self.children@.subrange(0, i as int + 1).drop_last()
                            =~= self.children@.subrange(0, i as int));
                        assert(decreases_to!(self => self.children@[i as int]));
                    }
                    let c = self.children[i].total_files();
                    sum = sum + c;
                    i = i + 1;
                }
                proof {
                    assert(self.children@.subrange(0, i as int) =~= self.children@);
                }
                sum
            },
            _ => 1,
        }
    }

    /// Total number of directory nodes in this subtree (recursive, excluding self).
    pub fn total_dirs(&self) -> (r: u64)
        requires
            node_dirs(*self) <= u64::MAX,
        ensures
            r == node_dirs(*self),
        decreases self,
    {
        let mut sum: u64 = 0;
        let mut i: usize = 0;
        while i < self.children.len()
            invariant
                i <= self.children@.len(),
                node_dirs(*self) <= u64::MAX,
                sum == children_dirs(self.children@.subrange(0, i as int)),
            decreases self.children@.len() - i,
        {
            proof {
                lemma_children_dirs_prefix(self.children@, i as int + 1);
                assert(self.children@.subrange(0, i as int + 1).drop_last()
                    =~= self.children@.subrange(0, i as int));
                assert(decreases_to!(self => self.children@[i as int]));
            }
            let child = &self.children[i];
            let self_count: u64 = if child.node_type == NodeType::Dir { 1 } else { 0 };
            let c = child.total_dirs();
            sum = sum + self_count + c;
            i = i + 1;
        }
        proof {
            assert(self.children@.subrange(0, i as int) =~= self.children@);
        }
        sum
    }

    /// Recursively sort children by size (largest first).
    pub fn sort_children_by_size(&mut self)
        ensures
            sorted_from(*final(self), *old(self)),
        decreases *old(self),
    {
        stable_sort_by_key(&mut self.children);
        let ghost mid = self.children@;
        let ghost p = choose|p: Seq<int>| stable_sort_witness(mid, old(self).children@, p);
        let n = self.children.len();
        let mut i: usize = 0;
        while i < n
            invariant
                n == self.children@.len(),
                n == mid.len(),
                i <= n,
                stable_sort_witness(mid, old(self).children@, p),
                self.name == old(self).name,
                self.size == old(self).size,
                self.node_type == old(self).node_type,
                self.depth == old(self).depth,
                self.modified == old(self).modified,
                forall|k: int| 0 <= k < i ==> sorted_from(#[trigger] self.children@[k], mid[k]),
                forall|k: int| i <= k < n ==> #[trigger] self.children@[k] == mid[k],
            decreases n - i,
        {
            proof {
                assert(mid[i as int] == old(self).children@[p[i as int]]);
                assert(decreases_to!(*old(self) => old(self).children@[p[i as int]]));
            }
            self.children[i].sort_children_by_size();
            i = i + 1;
        }
        proof {
            let new = self.children@;
            let old_c = old(self).children@;
            assert forall|k: int| 0 <= k < n implies #[trigger] new[k].size == mid[k].size by {
                assert(sorted_from(new[k], mid[k]));
            }
            assert forall|a: int, b: int| 0 <= a < b < n implies (#[trigger] new[a]).size
                >= (#[trigger] new[b]).size by {
                assert(new[a].size == mid[a].size);
                assert(new[b].size == mid[b].size);
                assert(mid[a].key_spec() <= mid[b].key_spec());
            }
            assert forall|a: int, b: int|
                0 <= a < b < n && (#[trigger] new[a]).size == (#[trigger] new[b]).size implies p[a]
                < p[b] by {
                assert(new[a].size == mid[a].size);
                assert(new[b].size == mid[b].size);
                assert(mid[a].key_spec() == mid[b].key_spec());
            }
            assert(size_order(new, old_c, p));
            assert forall|k: int| 0 <= k < n implies sorted_from(
                #[trigger] new[k],
                old_c[p[k]],
            ) by {
                assert(sorted_from(new[k], mid[k]));
                assert(mid[k] == old_c[p[k]]);
            }
        }
    }
}

/// A prefix of a sequence of subtrees holds no more files than the whole.
pub proof fn lemma_children_files_prefix(s: Seq<DiskNode>, i: int)
    requires
        0 <= i <= s.len(),
    ensures
        children_files(s.subrange(0, i)) <= children_files(s),
    decreases s.len() - i,
{
    if i < s.len() {
        lemma_children_files_prefix(s, i + 1);
        assert(s.subrange(0, i + 1).drop_last() =~= s.subrange(0, i));
    } else {
        assert(s.subrange(0, i) =~= s);
    }
}

/// The file counts of a sequence of subtrees, one per subtree.
pub open spec fn file_counts(s: Seq<DiskNode>) -> Seq<int> {
    s.map_values(|c: DiskNode| node_files(c) as int)
}

/// The directory counts of a sequence of subtrees, each subtree's root included.
pub open spec fn dir_counts(s: Seq<DiskNode>) -> Seq<int> {
    s.map_values(
        |c: DiskNode|
            (node_dirs(c) + (if c.node_type == NodeType::Dir {
                1nat
            } else {
                0nat
            })) as int,
    )
}

pub proof fn lemma_children_counts_as_sums(s: Seq<DiskNode>)
    ensures
        children_files(s) == seq_sum(file_counts(s)),
        children_dirs(s) == seq_sum(dir_counts(s)),
    decreases s.len(),
{
    if s.len() > 0 {
        lemma_children_counts_as_sums(s.drop_last());
        assert(file_counts(s.drop_last()) =~= file_counts(s).drop_last());
        assert(dir_counts(s.drop_last()) =~= dir_counts(s).drop_last());
    }
}

/// Sorting only reorders: a tree sorted by `sort_children_by_size` holds as many files
/// and directories as before.
pub proof fn lemma_sort_keeps_counts(new: DiskNode, old: DiskNode)
    requires
        sorted_from(new, old),
    ensures
        node_files(new) == node_files(old),
        node_dirs(new) == node_dirs(old),
    decreases old,
{
    let p = choose|p: Seq<int>|
        #[trigger] size_order(new.children@, old.children@, p) && forall|k: int|
            0 <= k < new.children@.len() ==> sorted_from(
                #[trigger] new.children@[k],
                old.children@[p[k]],
            );
    let nc = new.children@;
    let oc = old.children@;
    assert forall|k: int| 0 <= k < nc.len() implies #[trigger] file_counts(nc)[k] == file_counts(
        oc,
    )[p[k]] && dir_counts(nc)[k] == dir_counts(oc)[p[k]] by {
        assert(sorted_from(nc[k], oc[p[k]]));
        assert(decreases_to!(old => oc[p[k]]));
        lemma_sort_keeps_counts(nc[k], oc[p[k]]);
    }
    assert forall|k: int| 0 <= k < nc.len() implies #[trigger] dir_counts(nc)[k] == dir_counts(
        oc,
    )[p[k]] by {
        assert(file_counts(nc)[k] == file_counts(oc)[p[k]]);
    }
    lemma_seq_sum_permuted(file_counts(nc), file_counts(oc), p);
    lemma_seq_sum_permuted(dir_counts(nc), dir_counts(oc), p);
    lemma_children_counts_as_sums(nc);
    lemma_children_counts_as_sums(oc);
}

/// A prefix of a sequence of subtrees holds no more directories than the whole.
pub proof fn lemma_children_dirs_prefix(s: Seq<DiskNode>, i: int)
    requires
        0 <= i <= s.len(),
    ensures
        children_dirs(s.subrange(0, i)) <= children_dirs(s),
    decreases s.len() - i,
{
    if i < s.len() {
        lemma_children_dirs_prefix(s, i + 1);
        assert(s.subrange(0, i + 1).drop_last() =~= s.subrange(0, i));
    } else {
        assert(s.subrange(0, i) =~= s);
    }
}

} // verus!
