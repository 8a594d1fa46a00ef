use vstd::prelude::*;

use std::cmp::Ordering;

use crate::model::node::{
    dir_counts, file_counts, lemma_children_counts_as_sums, node_dirs, node_files, DiskNode,
    NodeType,
};
use crate::model::sorting::{is_permutation, lemma_seq_sum_permuted};
use crate::strings::chars_of;

verus! {

/// The property by which the children of a node are ordered.
#[derive(Debug, Clone, Copy, PartialEq, Eq, Structural)]
pub enum SortField {
    Size,
    Name,
    Modified,
    Files,
}

/// The field after `f` in the cycle Size, Name, Modified, Files.
pub open spec fn next_field(f: SortField) -> SortField {
    match f {
        SortField::Size => SortField::Name,
        SortField::Name => SortField::Modified,
        SortField::Modified => SortField::Files,
        SortField::Files => SortField::Size,
    }
}

impl SortField {
    /// The next field in the cycle Size, Name, Modified, Files.
    pub fn next(self) -> (r: SortField)
        ensures
            r == next_field(self),
    {
        match self {
            SortField::Size => SortField::Name,
            SortField::Name => SortField::Modified,
            SortField::Modified => SortField::Files,
            SortField::Files => SortField::Size,
        }
    }

    /// The name of the field in the status bar.
    pub fn label(self) -> (r: &'static str)
        ensures
            r@ == match self {
                SortField::Size => "Size"@,
                SortField::Name => "Name"@,
                SortField::Modified => "Modified"@,
                SortField::Files => "Files"@,
            },
    {
        match self {
            SortField::Size => "Size",
            SortField::Name => "Name",
            SortField::Modified => "Modified",
            SortField::Files => "Files",
        }
    }
}

/// How the children of every node are ordered: by `field`, smallest first when
/// `ascending`, largest first otherwise.
#[derive(Debug, Clone, Copy, PartialEq, Eq, Structural)]
pub struct SortConfig {
    pub field: SortField,
    pub ascending: bool,
}

/// The configuration a scan starts with: largest first.
pub open spec fn default_sort() -> SortConfig {
    SortConfig { field: SortField::Size, ascending: false }
}

impl Default for SortConfig {
    fn default() -> (c: Self)
        ensures
            c == default_sort(),
    {
        SortConfig { field: SortField::Size, ascending: false }
    }
}

/// -1, 0 or 1 as `x` is negative, zero or positive.
pub open spec fn sign(x: int) -> int {
    if x < 0 {
        -1
    } else if x > 0 {
        1
    } else {
        0
    }
}

/// The order of two texts from position `i` on, by code point, a proper prefix first.
pub open spec fn text_order_from(a: Seq<char>, b: Seq<char>, i: int) -> int
    decreases a.len() - i,
{
    if i >= a.len() {
        if i >= b.len() {
            0
        } else {
            -1
        }
    } else if i >= b.len() {
        1
    } else if a[i] != b[i] {
        sign(a[i] as int - b[i] as int)
    } else {
        text_order_from(a, b, i + 1)
    }
}

/// The order of two texts: -1, 0 or 1 as `a` comes before, with or after `b` by code
/// point, a proper prefix first.
pub open spec fn text_order(a: Seq<char>, b: Seq<char>) -> int {
    text_order_from(a, b, 0)
}

/// The order of two modification times; a missing time comes first.
pub open spec fn time_order(a: Option<i128>, b: Option<i128>) -> int {
    match (a, b) {
        (None, None) => 0,
        (None, Some(_)) => -1,
        (Some(_), None) => 1,
        (Some(x), Some(y)) => sign(x - y),
    }
}

/// The number of files below `n`, counted up to `u64::MAX`.
pub open spec fn capped_files(n: DiskNode) -> int {
    if node_files(n) > u64::MAX {
        u64::MAX as int
    } else {
        node_files(n) as int
    }
}

/// The order of two nodes by `field`, smallest first: -1, 0 or 1.
pub open spec fn field_order(a: DiskNode, b: DiskNode, field: SortField) -> int {
    match field {
        SortField::Size => sign(a.size - b.size),
        SortField::Name => text_order(a.name@, b.name@),
        SortField::Modified => time_order(a.modified, b.modified),
        SortField::Files => sign(capped_files(a) - capped_files(b)),
    }
}

/// The order of two nodes under `c`: negative when `a` comes first, positive when `b`
/// does, zero when `c` does not tell them apart.
pub open spec fn node_order(a: DiskNode, b: DiskNode, c: SortConfig) -> int {
    if c.ascending {
        field_order(a, b, c.field)
    } else {
        field_order(b, a, c.field)
    }
}

/// `new` is `old` reordered by `p` (`new[k]` comes from `old[p[k]]`), in the order `c`
/// gives, with nodes that `c` does not tell apart in their former relative order.
pub open spec fn ordered_by(new: Seq<DiskNode>, old: Seq<DiskNode>, p: Seq<int>, c: SortConfig) -> bool {
    &&& new.len() == old.len()
    &&& is_permutation(p, old.len() as int)
    &&& forall|i: int, j: int|
        0 <= i < j < new.len() ==> node_order(#[trigger] new[i], #[trigger] new[j], c) <= 0
    &&& forall|i: int, j: int|
        0 <= i < j < new.len() && node_order(#[trigger] new[i], #[trigger] new[j], c) == 0
            ==> p[i] < p[j]
}

/// `new` is the stable sort of `old` under `c`, each node moved as it is.
pub open spec fn sorted_seq(new: Seq<DiskNode>, old: Seq<DiskNode>, c: SortConfig) -> bool {
    exists|p: Seq<int>|
        #[trigger] ordered_by(new, old, p, c) && forall|k: int|
            0 <= k < new.len() ==> #[trigger] new[k] == old[p[k]]
}

/// `new` is `old` with the children of every node in it put in the order `c` gives;
/// nothing else differs.
pub open spec fn sorted_by(new: DiskNode, old: DiskNode, c: SortConfig) -> bool
    decreases old,
{
    &&& new.name == old.name
    &&& new.size == old.size
    &&& new.node_type == old.node_type
    &&& new.depth == old.depth
    &&& new.modified == old.modified
    &&& exists|p: Seq<int>|
        #[trigger] ordered_by(new.children@, old.children@, p, c) && forall|k: int|
            0 <= k < new.children@.len() ==> sorted_by(
                #[trigger] new.children@[k],
                old.children@[p[k]],
                c,
            )
}

/// The order of two texts, as `text_order` gives it.
pub fn text_sign(a: &str, b: &str) -> (r: i8)
    ensures
        r == text_order(a@, b@),
{
    let x = chars_of(a);
    let y = chars_of(b);
    let mut i: usize = 0;
    while i < x.len() && i < y.len()
        invariant
            x@ == a@,
            y@ == b@,
            i <= x@.len(),
            i <= y@.len(),
            text_order(a@, b@) == text_order_from(a@, b@, i as int),
        decreases x@.len() - i,
    {
        let u = x[i];
        let v = y[i];
        if u != v {
            if u < v {
                return -1;
            } else {
                return 1;
            }
        }
        i = i + 1;
    }
    if i < x.len() {
        1
    } else if i < y.len() {
        -1
    } else {
        0
    }
}

/// The order of two sizes, as `sign` gives it.
fn number_sign(a: u64, b: u64) -> (r: i8)
    ensures
        r == sign(a - b),
{
    if a < b {
        -1
    } else if a > b {
        1
    } else {
        0
    }
}

impl DiskNode {
    /// The number of files below this node, counted up to `u64::MAX`.
    pub fn capped_file_count(&self) -> (r: u64)
        ensures
            r == capped_files(*self),
        decreases self,
    {
        match self.node_type {
            NodeType::Dir => {
                let mut sum: u64 = 0;
                let mut i: usize = 0;
                while i < self.children.len()
                    invariant
                        i <= self.children@.len(),
                        self.node_type == NodeType::Dir,
                        sum == capped_total(self.children@.subrange(0, i as int)),
                    decreases self.children@.len() - i,
                {
                    proof {
                        assert(self.children@.subrange(0, i as int + 1).drop_last()
                            =~= self.children@.subrange(0, i as int));
                        assert(decreases_to!(self => self.children@[i as int]));
                    }
                    let c = self.children[i].capped_file_count();
                    sum = sum.saturating_add(c);
                    i = i + 1;
                }
                proof {
                    assert(self.children@.subrange(0, i as int) =~= self.children@);
                }
                sum
            },
            _ => 1,
        }
    }
}

/// The number of files in a sequence of subtrees, counted up to `u64::MAX`.
pub open spec fn capped_total(s: Seq<DiskNode>) -> int {
    if crate::model::node::children_files(s) > u64::MAX {
        u64::MAX as int
    } else {
        crate::model::node::children_files(s) as int
    }
}

/// The order of two nodes by `field`, as `field_order` gives it.
fn field_sign(a: &DiskNode, b: &DiskNode, field: SortField) -> (r: i8)
    ensures
        r == field_order(*a, *b, field),
{
    match field {
        SortField::Size => number_sign(a.size, b.size),
        SortField::Name => text_sign(a.name.as_str(), b.name.as_str()),
        SortField::Modified => match (a.modified, b.modified) {
            (None, None) => 0,
            (None, Some(_)) => -1,
            (Some(_), None) => 1,
            (Some(x), Some(y)) => {
                if x < y {
                    -1
                } else if x > y {
                    1
                } else {
                    0
                }
            },
        },
        SortField::Files => number_sign(a.capped_file_count(), b.capped_file_count()),
    }
}

/// Which of two nodes comes first under `config`.
pub fn compare_nodes(a: &DiskNode, b: &DiskNode, config: SortConfig) -> (r: Ordering)
    ensures
        (r == Ordering::Less) == (node_order(*a, *b, config) < 0),
        (r == Ordering::Equal) == (node_order(*a, *b, config) == 0),
        (r == Ordering::Greater) == (node_order(*a, *b, config) > 0),
{
    let s = if config.ascending {
        field_sign(a, b, config.field)
    } else {
        field_sign(b, a, config.field)
    };
    if s < 0 {
        Ordering::Less
    } else if s > 0 {
        Ordering::Greater
    } else {
        Ordering::Equal
    }
}

/// Calls `slice::sort_by` with `compare_nodes` under `config`. The standard library
/// documents this sort as stable: it orders the items by the comparison and keeps
/// items that compare equal in their order. The comparison is a total order
/// (`lemma_node_order_is_total`), the case in which the sort neither panics nor leaves
/// the order unspecified.
#[verifier::external_body]
fn sort_nodes(v: &mut Vec<DiskNode>, config: SortConfig)
    ensures
        sorted_seq(final(v)@, old(v)@, config),
{
    v.sort_by(|a, b| compare_nodes(a, b, config));
}

impl DiskNode {
    /// Recursively order the children of every node as `config` says.
    pub fn sort_children(&mut self, config: &SortConfig)
        ensures
            sorted_by(*final(self), *old(self), *config),
        decreases *old(self),
    {
        let c = *config;
        sort_nodes(&mut self.children, c);
        let ghost mid = self.children@;
        let ghost p = choose|p: Seq<int>|
            #[trigger] ordered_by(mid, old(self).children@, p, c) && forall|k: int|
                0 <= k < mid.len() ==> #[trigger] mid[k] == old(self).children@[p[k]];
        let n = self.children.len();
        let mut i: usize = 0;
        while i < n
            invariant
                n == self.children@.len(),
                n == mid.len(),
                i <= n,
                c == *config,
                ordered_by(mid, old(self).children@, p, c),
                forall|k: int| 0 <= k < n ==> #[trigger] mid[k] == old(self).children@[p[k]],
                self.name == old(self).name,
                self.size == old(self).size,
                self.node_type == old(self).node_type,
                self.depth == old(self).depth,
                self.modified == old(self).modified,
                forall|k: int| 0 <= k < i ==> sorted_by(#[trigger] self.children@[k], mid[k], c),
                forall|k: int| i <= k < n ==> #[trigger] self.children@[k] == mid[k],
            decreases n - i,
        {
            proof {
                assert(mid[i as int] == old(self).children@[p[i as int]]);
                assert(decreases_to!(*old(self) => old(self).children@[p[i as int]]));
            }
            self.children[i].sort_children(config);
            i = i + 1;
        }
        proof {
            let new = self.children@;
            let old_c = old(self).children@;
            assert forall|k: int| 0 <= k < n implies node_files(#[trigger] new[k]) == node_files(
                mid[k],
            ) by {
                lemma_sorting_keeps_counts(new[k], mid[k], c);
            }
            assert forall|a: int, b: int| 0 <= a < b < n implies node_order(
                #[trigger] new[a],
                #[trigger] new[b],
                c,
            ) == node_order(mid[a], mid[b], c) by {
                assert(sorted_by(new[a], mid[a], c));
                assert(sorted_by(new[b], mid[b], c));
                assert(node_files(new[a]) == node_files(mid[a]));
                assert(node_files(new[b]) == node_files(mid[b]));
            }
            assert forall|a: int, b: int| 0 <= a < b < n implies node_order(
                #[trigger] new[a],
                #[trigger] new[b],
                c,
            ) <= 0 by {
                assert(node_order(mid[a], mid[b], c) <= 0);
            }
            assert forall|a: int, b: int|
                0 <= a < b < n && node_order(#[trigger] new[a], #[trigger] new[b], c) == 0 implies p[a]
                < p[b] by {
                assert(node_order(mid[a], mid[b], c) == 0);
            }
            assert(ordered_by(new, old_c, p, c));
            assert forall|k: int| 0 <= k < n implies sorted_by(#[trigger] new[k], old_c[p[k]], c) by {
                assert(sorted_by(new[k], mid[k], c));
                assert(mid[k] == old_c[p[k]]);
            }
        }
    }
}

/// Sorting only reorders: a tree sorted by `sort_children` holds as many files and
/// directories as before.
pub proof fn lemma_sorting_keeps_counts(new: DiskNode, old: DiskNode, c: SortConfig)
    requires
        sorted_by(new, old, c),
    ensures
        node_files(new) == node_files(old),
        node_dirs(new) == node_dirs(old),
    decreases old,
{
    let p = choose|p: Seq<int>|
        #[trigger] ordered_by(new.children@, old.children@, p, c) && forall|k: int|
            0 <= k < new.children@.len() ==> sorted_by(
                #[trigger] new.children@[k],
                old.children@[p[k]],
                c,
            );
    let nc = new.children@;
    let oc = old.children@;
    assert forall|k: int| 0 <= k < nc.len() implies #[trigger] file_counts(nc)[k] == file_counts(
        oc,
    )[p[k]] && dir_counts(nc)[k] == dir_counts(oc)[p[k]] by {
        assert(sorted_by(nc[k], oc[p[k]], c));
        assert(decreases_to!(old => oc[p[k]]));
        lemma_sorting_keeps_counts(nc[k], oc[p[k]], c);
    }
    assert forall|k: int| 0 <= k < nc.len() implies #[trigger] dir_counts(nc)[k] == dir_counts(
        oc,
    )[p[k]] by {
        assert(file_counts(nc)[k] == file_counts(oc)[p[k]]);
    }
    lemma_seq_sum_permuted(file_counts(nc), file_counts(oc), p);
    lemma_seq_sum_permuted(dir_counts(nc), dir_counts(oc), p);
    lemma_children_counts_as_sums(nc);
    lemma_children_counts_as_sums(oc);
}

proof fn lemma_text_order_flip(a: Seq<char>, b: Seq<char>, i: int)
    requires
        0 <= i,
    ensures
        text_order_from(a, b, i) == -text_order_from(b, a, i),
    decreases a.len() - i,
{
    if i < a.len() && i < b.len() && a[i] == b[i] {
        lemma_text_order_flip(a, b, i + 1);
    }
}

proof fn lemma_text_order_same(a: Seq<char>, i: int)
    requires
        0 <= i,
    ensures
        text_order_from(a, a, i) == 0,
    decreases a.len() - i,
{
    if i < a.len() {
        lemma_text_order_same(a, i + 1);
    }
}

proof fn lemma_text_order_chain(a: Seq<char>, b: Seq<char>, d: Seq<char>, i: int)
    requires
        0 <= i,
        text_order_from(a, b, i) <= 0,
        text_order_from(b, d, i) <= 0,
    ensures
        text_order_from(a, d, i) <= 0,
    decreases a.len() - i,
{
    if i < a.len() && i < b.len() && i < d.len() && a[i] == b[i] && b[i] == d[i] {
        lemma_text_order_chain(a, b, d, i + 1);
    }
}

/// The order the children are sorted by is a total preorder: a node is tied with
/// itself, swapping two nodes negates their order, and it is transitive.
pub proof fn lemma_node_order_is_total(a: DiskNode, b: DiskNode, d: DiskNode, c: SortConfig)
    ensures
        node_order(a, a, c) == 0,
        node_order(a, b, c) == -node_order(b, a, c),
        node_order(a, b, c) <= 0 && node_order(b, d, c) <= 0 ==> node_order(a, d, c) <= 0,
{
    if c.field == SortField::Name {
        lemma_text_order_same(a.name@, 0);
        lemma_text_order_flip(a.name@, b.name@, 0);
        if node_order(a, b, c) <= 0 && node_order(b, d, c) <= 0 {
            if c.ascending {
                lemma_text_order_chain(a.name@, b.name@, d.name@, 0);
            } else {
                lemma_text_order_chain(d.name@, b.name@, a.name@, 0);
            }
        }
    }
}

} // verus!
