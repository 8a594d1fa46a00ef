use vstd::prelude::*;

use std::collections::HashMap;

use crate::model::node::{DiskNode, NodeType};
use crate::model::sorting::seq_sum;
use crate::strings::{chars_of, same_names, texts};

verus! {

broadcast use vstd::std_specs::hash::group_hash_axioms;

/// A filesystem entry found by the scan: its path as components below the scan root,
/// its counted size, its type and its modification time (nanoseconds relative to the
/// Unix epoch).
#[derive(Debug)]
pub struct RawEntry {
    pub components: Vec<String>,
    pub size: u64,
    pub node_type: NodeType,
    pub modified: Option<i128>,
}

/// What a `RawEntry` says, with its path components as texts.
pub struct EntryModel {
    pub comps: Seq<Seq<char>>,
    pub size: u64,
    pub node_type: NodeType,
    pub modified: Option<i128>,
}

impl View for RawEntry {
    type V = EntryModel;

    open spec fn view(&self) -> EntryModel {
        EntryModel {
            comps: texts(self.components@),
            size: self.size,
            node_type: self.node_type,
            modified: self.modified,
        }
    }
}

/// The models of a sequence of entries.
pub open spec fn models(s: Seq<RawEntry>) -> Seq<EntryModel> {
    s.map_values(|e: RawEntry| e@)
}

/// Whether entry `e` sits directly below the path `p`.
pub open spec fn parent_is(e: EntryModel, p: Seq<Seq<char>>) -> bool {
    e.comps.len() > 0 && e.comps.drop_last() == p
}

/// The indices below `n` of the entries directly below `p`, ascending.
pub open spec fn children_upto(s: Seq<EntryModel>, p: Seq<Seq<char>>, n: int) -> Seq<usize>
    decreases n,
{
    if n <= 0 {
        Seq::empty()
    } else {
        children_upto(s, p, n - 1) + if parent_is(s[n - 1], p) {
            seq![(n - 1) as usize]
        } else {
            Seq::empty()
        }
    }
}

/// The indices of the entries directly below `p`, ascending (the order they were found in).
pub open spec fn children_of(s: Seq<EntryModel>, p: Seq<Seq<char>>) -> Seq<usize> {
    children_upto(s, p, s.len() as int)
}

/// The longest path among the entries, in components.
pub open spec fn max_len(s: Seq<EntryModel>) -> nat
    decreases s.len(),
{
    if s.len() == 0 {
        0
    } else {
        let m = max_len(s.drop_last());
        if s.last().comps.len() > m {
            s.last().comps.len()
        } else {
            m
        }
    }
}

proof fn lemma_max_len(s: Seq<EntryModel>, i: int)
    requires
        0 <= i < s.len(),
    ensures
        s[i].comps.len() <= max_len(s),
    decreases s.len(),
{
    if i < s.len() - 1 {
        lemma_max_len(s.drop_last(), i);
    }
}

/// The bytes below `p`: each entry directly below it counts its own size, or, for a
/// directory, the bytes below it.
pub open spec fn subtree_total(s: Seq<EntryModel>, p: Seq<Seq<char>>) -> int
    decreases max_len(s) - p.len(), s.len() + 1,
{
    if p.len() > max_len(s) {
        0
    } else {
        children_total(s, p, s.len() as int)
    }
}

/// The bytes that the entries below index `n` directly below `p` account for.
pub open spec fn children_total(s: Seq<EntryModel>, p: Seq<Seq<char>>, n: int) -> int
    decreases max_len(s) - p.len(), n,
{
    if n <= 0 || n > s.len() || p.len() > max_len(s) {
        0
    } else {
        children_total(s, p, n - 1) + if parent_is(s[n - 1], p) {
            entry_total(s, n - 1)
        } else {
            0
        }
    }
}

/// What entry `i` accounts for: the bytes below it for a directory, else its size.
pub open spec fn entry_total(s: Seq<EntryModel>, i: int) -> int
    decreases max_len(s) - s[i].comps.len() + 1, 0nat,
{
    if 0 <= i < s.len() && s[i].node_type == NodeType::Dir {
        if s[i].comps.len() <= max_len(s) {
            subtree_total(s, s[i].comps)
        } else {
            0
        }
    } else if 0 <= i < s.len() {
        s[i].size as int
    } else {
        0
    }
}

// ---------------------------------------------------------------------------
// Grouping entries by parent path
// ---------------------------------------------------------------------------

/// One step of the FNV-1a style hash used to group entries by parent path.
#[verifier::opaque]
pub open spec fn mix(h: u64, v: u64) -> u64 {
    vstd::wrapping::u64_specs::wrapping_add(
        vstd::wrapping::u64_specs::wrapping_mul(h, 1099511628211u64),
        v,
    )
}

/// The hash state after feeding the characters of `t` to state `h`.
pub open spec fn hash_text(h: u64, t: Seq<char>) -> u64
    decreases t.len(),
{
    if t.len() == 0 {
        h
    } else {
        mix(hash_text(h, t.drop_last()), ((t.last() as u32 as u64) + 1) as u64)
    }
}

/// The hash of a path given as components.
#[verifier::opaque]
pub open spec fn path_hash(p: Seq<Seq<char>>) -> u64
    decreases p.len(),
{
    if p.len() == 0 {
        14695981039346656037u64
    } else {
        mix(hash_text(path_hash(p.drop_last()), p.last()), 0x20_0000u64)
    }
}

fn mix_exec(h: u64, v: u64) -> (r: u64)
    ensures
        r == mix(h, v),
{
    proof {
        reveal(mix);
    }
    h.wrapping_mul(1099511628211u64).wrapping_add(v)
}

/// The hash of a path given as components.
fn hash_path(comps: &[String]) -> (h: u64)
    ensures
        h == path_hash(texts(comps@)),
{
    let mut h: u64 = 14695981039346656037u64;
    let mut i: usize = 0;
    let ghost all = texts(comps@);
    proof {
        reveal(path_hash);
        assert(all.subrange(0, 0) =~= Seq::<Seq<char>>::empty());
    }
    while i < comps.len()
        invariant
            i <= comps@.len(),
            all == texts(comps@),
            h == path_hash(all.subrange(0, i as int)),
        decreases comps@.len() - i,
    {
        let cs = chars_of(comps[i].as_str());
        let ghost start = h;
        let mut j: usize = 0;
        proof {
            assert(cs@.subrange(0, 0) =~= Seq::<char>::empty());
        }
        while j < cs.len()
            invariant
                j <= cs@.len(),
                h == hash_text(start, cs@.subrange(0, j as int)),
            decreases cs@.len() - j,
        {
            let v: u64 = (cs[j] as u32 as u64) + 1;
            proof {
                assert(cs@.subrange(0, j as int + 1).drop_last() =~= cs@.subrange(0, j as int));
            }
            h = mix_exec(h, v);
            j = j + 1;
        }
        proof {
            reveal(path_hash);
            assert(cs@.subrange(0, j as int) =~= cs@);
            assert(all.subrange(0, i as int + 1).drop_last() =~= all.subrange(0, i as int));
            assert(all[i as int] == cs@);
        }
        h = mix_exec(h, 0x20_0000u64);
        i = i + 1;
    }
    proof {
        assert(all.subrange(0, i as int) =~= all);
    }
    h
}

/// The indices below `n` of the entries whose parent path hashes to `h`, ascending.
pub open spec fn hashed_upto(s: Seq<EntryModel>, h: u64, n: int) -> Seq<usize>
    decreases n,
{
    if n <= 0 {
        Seq::empty()
    } else {
        hashed_upto(s, h, n - 1) + if s[n - 1].comps.len() > 0 && path_hash(
            s[n - 1].comps.drop_last(),
        ) == h {
            seq![(n - 1) as usize]
        } else {
            Seq::empty()
        }
    }
}

/// The members of `idx` whose entries sit directly below `p`, in order.
pub open spec fn keep_below(s: Seq<EntryModel>, idx: Seq<usize>, p: Seq<Seq<char>>) -> Seq<usize>
    decreases idx.len(),
{
    if idx.len() == 0 {
        Seq::empty()
    } else {
        keep_below(s, idx.drop_last(), p) + if parent_is(s[idx.last() as int], p) {
            seq![idx.last()]
        } else {
            Seq::empty()
        }
    }
}

proof fn lemma_keep_below_concat(
    s: Seq<EntryModel>,
    a: Seq<usize>,
    b: Seq<usize>,
    p: Seq<Seq<char>>,
)
    ensures
        keep_below(s, a + b, p) == keep_below(s, a, p) + keep_below(s, b, p),
    decreases b.len(),
{
    if b.len() == 0 {
        assert(a + b =~= a);
    } else {
        lemma_keep_below_concat(s, a, b.drop_last(), p);
        assert((a + b).drop_last() =~= a + b.drop_last());
    }
}

/// Keeping, among the entries whose parent hashes like `p`, those directly below `p`
/// gives exactly the entries directly below `p`.
proof fn lemma_keep_hashed(s: Seq<EntryModel>, p: Seq<Seq<char>>, n: int)
    requires
        0 <= n <= s.len(),
        s.len() <= usize::MAX,
    ensures
        keep_below(s, hashed_upto(s, path_hash(p), n), p) == children_upto(s, p, n),
    decreases n,
{
    if n > 0 {
        lemma_keep_hashed(s, p, n - 1);
        let tail = if s[n - 1].comps.len() > 0 && path_hash(s[n - 1].comps.drop_last())
            == path_hash(p) {
            seq![(n - 1) as usize]
        } else {
            Seq::<usize>::empty()
        };
        lemma_keep_below_concat(s, hashed_upto(s, path_hash(p), n - 1), tail, p);
        assert(keep_below(s, Seq::<usize>::empty(), p) =~= Seq::<usize>::empty());
        if tail.len() == 1 {
            assert(tail.drop_last() =~= Seq::<usize>::empty());
            assert(tail.last() == (n - 1) as usize);
        }
        assert(keep_below(s, tail, p) =~= (if parent_is(s[n - 1], p) {
            seq![(n - 1) as usize]
        } else {
            Seq::<usize>::empty()
        }));
    }
}

proof fn lemma_hashed_upto_bounds(s: Seq<EntryModel>, h: u64, n: int)
    requires
        0 <= n <= usize::MAX,
    ensures
        forall|j: int|
            0 <= j < hashed_upto(s, h, n).len() ==> #[trigger] hashed_upto(s, h, n)[j] < n,
    decreases n,
{
    if n > 0 {
        lemma_hashed_upto_bounds(s, h, n - 1);
        let prev = hashed_upto(s, h, n - 1);
        let all = hashed_upto(s, h, n);
        assert forall|j: int| 0 <= j < all.len() implies #[trigger] all[j] < n by {
            if j < prev.len() {
                assert(all[j] == prev[j]);
            }
        }
    }
}

/// Groups the entries by the hash of their parent path.
fn bucket_entries(entries: &Vec<RawEntry>) -> (b: HashMap<u64, Vec<usize>>)
    ensures
        forall|h: u64|
            #[trigger] b@.contains_key(h) ==> b@[h]@ == hashed_upto(
                models(entries@),
                h,
                entries@.len() as int,
            ),
        forall|h: u64|
            !(#[trigger] b@.contains_key(h)) ==> hashed_upto(
                models(entries@),
                h,
                entries@.len() as int,
            ).len() == 0,
{
    let ghost s = models(entries@);
    let mut b: HashMap<u64, Vec<usize>> = HashMap::new();
    let mut i: usize = 0;
    while i < entries.len()
        invariant
            i <= entries@.len(),
            s == models(entries@),
            forall|h: u64|
                #[trigger] b@.contains_key(h) ==> b@[h]@ == hashed_upto(s, h, i as int),
            forall|h: u64|
                !(#[trigger] b@.contains_key(h)) ==> hashed_upto(s, h, i as int).len() == 0,
        decreases entries@.len() - i,
    {
        let comps = &entries[i].components;
        proof {
            assert(s[i as int] == entries@[i as int]@);
        }
        if comps.len() > 0 {
            let parent = &comps.as_slice()[0..comps.len() - 1];
            proof {
                assert(texts(parent@) =~= texts(comps@).drop_last());
            }
            let h = hash_path(parent);
            let ghost old_b = b@;
            let mut bucket = match b.remove(&h) {
                Some(v) => v,
                None => Vec::new(),
            };
            proof {
                assert(bucket@ == hashed_upto(s, h, i as int));
            }
            bucket.push(i);
            b.insert(h, bucket);
            proof {
                assert forall|k: u64| #[trigger] b@.contains_key(k) implies b@[k]@ == hashed_upto(
                    s,
                    k,
                    i as int + 1,
                ) by {
                    if k != h {
                        assert(old_b.contains_key(k));
                    } else {
                        assert(b@[k]@ =~= hashed_upto(s, k, i as int + 1));
                    }
                }
            }
        }
        i = i + 1;
    }
    b
}

/// The indices of the entries directly below `path`, ascending.
fn entries_below(entries: &Vec<RawEntry>, buckets: &HashMap<u64, Vec<usize>>, path: &[String]) -> (r:
    Vec<usize>)
    requires
        forall|h: u64|
            #[trigger] buckets@.contains_key(h) ==> buckets@[h]@ == hashed_upto(
                models(entries@),
                h,
                entries@.len() as int,
            ),
        forall|h: u64|
            !(#[trigger] buckets@.contains_key(h)) ==> hashed_upto(
                models(entries@),
                h,
                entries@.len() as int,
            ).len() == 0,
    ensures
        r@ == children_of(models(entries@), texts(path@)),
{
    let ghost s = models(entries@);
    let ghost p = texts(path@);
    let h = hash_path(path);
    let _n = entries.len();
    proof {
        lemma_keep_hashed(s, p, s.len() as int);
        lemma_hashed_upto_bounds(s, h, s.len() as int);
    }
    let mut out: Vec<usize> = Vec::new();
    match buckets.get(&h) {
        None => {
            proof {
                assert(hashed_upto(s, h, s.len() as int) =~= Seq::<usize>::empty());
            }
        },
        Some(bucket) => {
            let mut k: usize = 0;
            proof {
                assert(bucket@.subrange(0, 0) =~= Seq::<usize>::empty());
            }
            while k < bucket.len()
                invariant
                    k <= bucket@.len(),
                    s == models(entries@),
                    p == texts(path@),
                    bucket@ == hashed_upto(s, h, s.len() as int),
                    forall|j: int| 0 <= j < bucket@.len() ==> #[trigger] bucket@[j] < entries@.len(),
                    out@ == keep_below(s, bucket@.subrange(0, k as int), p),
                decreases bucket@.len() - k,
            {
                let idx = bucket[k];
                let comps = &entries[idx].components;
                proof {
                    assert(bucket@.subrange(0, k as int + 1).drop_last() =~= bucket@.subrange(
                        0,
                        k as int,
                    ));
                    assert(s[idx as int] == entries@[idx as int]@);
                }
                if comps.len() > 0 {
                    let parent = &comps.as_slice()[0..comps.len() - 1];
                    proof {
                        assert(texts(parent@) =~= texts(comps@).drop_last());
                    }
                    if same_names(parent, path) {
                        out.push(idx);
                    }
                }
                k = k + 1;
            }
            proof {
                assert(bucket@.subrange(0, k as int) =~= bucket@);
            }
        },
    }
    out
}

// ---------------------------------------------------------------------------
// Building the tree
// ---------------------------------------------------------------------------

/// `n` is the node for the path `p` at `depth`, built from the entries `s`: its children
/// are the entries directly below `p`, in the order they were found, each named by its
/// last component and carrying its type and modification time, a non-directory its own
/// size, each built the same way below its own path; a directory's size is the total of
/// the bytes below it.
pub open spec fn built_from(n: DiskNode, s: Seq<EntryModel>, p: Seq<Seq<char>>, depth: int) -> bool
    decreases n,
{
    let idx = children_of(s, p);
    &&& n.depth == depth
    &&& n.children@.len() == idx.len()
    &&& (n.node_type == NodeType::Dir ==> n.size == subtree_total(s, p))
    &&& forall|j: int|
        0 <= j < idx.len() ==> {
            let e = s[idx[j] as int];
            let c = #[trigger] n.children@[j];
            &&& c.name@ == e.comps.last()
            &&& c.node_type == e.node_type
            &&& c.modified == e.modified
            &&& (c.node_type != NodeType::Dir ==> c.size == e.size)
            &&& built_from(c, s, e.comps, depth + 1)
        }
}

/// The bytes that the entries `idx` account for.
pub open spec fn sum_entries(s: Seq<EntryModel>, idx: Seq<usize>) -> int
    decreases idx.len(),
{
    if idx.len() == 0 {
        0
    } else {
        sum_entries(s, idx.drop_last()) + entry_total(s, idx.last() as int)
    }
}

proof fn lemma_entry_nonneg(s: Seq<EntryModel>, i: int)
    requires
        0 <= i < s.len(),
    ensures
        entry_total(s, i) >= 0,
    decreases max_len(s) - s[i].comps.len() + 1, 0nat,
{
    if s[i].node_type == NodeType::Dir && s[i].comps.len() <= max_len(s) {
        lemma_children_nonneg(s, s[i].comps, s.len() as int);
    }
}

proof fn lemma_children_nonneg(s: Seq<EntryModel>, p: Seq<Seq<char>>, n: int)
    ensures
        children_total(s, p, n) >= 0,
    decreases max_len(s) - p.len(), n,
{
    if n > 0 && n <= s.len() && p.len() <= max_len(s) {
        lemma_children_nonneg(s, p, n - 1);
        if parent_is(s[n - 1], p) {
            lemma_max_len(s, n - 1);
            lemma_entry_nonneg(s, n - 1);
        }
    }
}

proof fn lemma_sum_entries_children(s: Seq<EntryModel>, p: Seq<Seq<char>>, n: int)
    requires
        0 <= n <= s.len(),
        s.len() <= usize::MAX,
        p.len() <= max_len(s),
    ensures
        sum_entries(s, children_upto(s, p, n)) == children_total(s, p, n),
    decreases n,
{
    if n > 0 {
        lemma_sum_entries_children(s, p, n - 1);
        if parent_is(s[n - 1], p) {
            let prev = children_upto(s, p, n - 1);
            assert(children_upto(s, p, n).drop_last() =~= prev);
        } else {
            assert(children_upto(s, p, n) =~= children_upto(s, p, n - 1));
        }
    }
}

proof fn lemma_sum_entries_prefix(s: Seq<EntryModel>, idx: Seq<usize>, k: int)
    requires
        0 <= k <= idx.len(),
        forall|j: int| 0 <= j < idx.len() ==> #[trigger] idx[j] < s.len(),
    ensures
        sum_entries(s, idx.subrange(0, k)) <= sum_entries(s, idx),
    decreases idx.len() - k,
{
    if k < idx.len() {
        lemma_sum_entries_prefix(s, idx, k + 1);
        assert(idx.subrange(0, k + 1).drop_last() =~= idx.subrange(0, k));
        lemma_entry_nonneg(s, idx[k] as int);
    } else {
        assert(idx.subrange(0, k) =~= idx);
    }
}

/// The sizes of the children of `n`, in order.
pub open spec fn child_sizes(n: DiskNode) -> Seq<int> {
    n.children@.map_values(|c: DiskNode| c.size as int)
}

proof fn lemma_no_children_past_longest(s: Seq<EntryModel>, p: Seq<Seq<char>>, n: int)
    requires
        0 <= n <= s.len(),
        p.len() >= max_len(s),
    ensures
        children_upto(s, p, n).len() == 0,
    decreases n,
{
    if n > 0 {
        lemma_no_children_past_longest(s, p, n - 1);
        lemma_max_len(s, n - 1);
    }
}

proof fn lemma_sizes_match_totals(n: DiskNode, s: Seq<EntryModel>, p: Seq<Seq<char>>, d: int, k: int)
    requires
        built_from(n, s, p, d),
        s.len() <= usize::MAX,
        0 <= k <= children_of(s, p).len(),
    ensures
        sum_entries(s, children_of(s, p).subrange(0, k)) == seq_sum(child_sizes(n).subrange(0, k)),
    decreases k,
{
    let idx = children_of(s, p);
    if k > 0 {
        lemma_sizes_match_totals(n, s, p, d, k - 1);
        assert(idx.subrange(0, k).drop_last() =~= idx.subrange(0, k - 1));
        assert(child_sizes(n).subrange(0, k).drop_last() =~= child_sizes(n).subrange(0, k - 1));
        lemma_children_below(s, p, s.len() as int);
        let i = idx[k - 1] as int;
        let c = n.children@[k - 1];
        lemma_max_len(s, i);
        assert(built_from(c, s, s[i].comps, d + 1));
        assert(c.size as int == entry_total(s, i));
    }
}

/// In a tree built from the scan's entries, a directory's size is the total of its
/// children's sizes.
pub proof fn lemma_dir_size_is_sum_of_children(
    n: DiskNode,
    s: Seq<EntryModel>,
    p: Seq<Seq<char>>,
    d: int,
)
    requires
        built_from(n, s, p, d),
        n.node_type == NodeType::Dir,
        s.len() <= usize::MAX,
    ensures
        n.size == seq_sum(child_sizes(n)),
{
    let idx = children_of(s, p);
    lemma_sizes_match_totals(n, s, p, d, idx.len() as int);
    assert(idx.subrange(0, idx.len() as int) =~= idx);
    assert(child_sizes(n).subrange(0, idx.len() as int) =~= child_sizes(n));
    if p.len() <= max_len(s) {
        lemma_sum_entries_children(s, p, s.len() as int);
    } else {
        lemma_no_children_past_longest(s, p, s.len() as int);
        assert(child_sizes(n) =~= Seq::<int>::empty());
    }
}

proof fn lemma_children_below(s: Seq<EntryModel>, p: Seq<Seq<char>>, n: int)
    requires
        0 <= n <= s.len(),
        s.len() <= usize::MAX,
    ensures
        forall|j: int|
            0 <= j < children_upto(s, p, n).len() ==> #[trigger] children_upto(s, p, n)[j] < n
                && parent_is(s[children_upto(s, p, n)[j] as int], p),
    decreases n,
{
    if n > 0 {
        lemma_children_below(s, p, n - 1);
        let prev = children_upto(s, p, n - 1);
        let all = children_upto(s, p, n);
        assert forall|j: int| 0 <= j < all.len() implies #[trigger] all[j] < n && parent_is(
            s[all[j] as int],
            p,
        ) by {
            if j < prev.len() {
                assert(all[j] == prev[j]);
            }
        }
    }
}

fn build_node(
    entries: &Vec<RawEntry>,
    buckets: &HashMap<u64, Vec<usize>>,
    path: &[String],
    name: String,
    node_type: NodeType,
    own_size: u64,
    modified: Option<i128>,
    depth: usize,
) -> (r: Option<DiskNode>)
    requires
        forall|h: u64|
            #[trigger] buckets@.contains_key(h) ==> buckets@[h]@ == hashed_upto(
                models(entries@),
                h,
                entries@.len() as int,
            ),
        forall|h: u64|
            !(#[trigger] buckets@.contains_key(h)) ==> hashed_upto(
                models(entries@),
                h,
                entries@.len() as int,
            ).len() == 0,
        texts(path@).len() <= max_len(models(entries@)),
        depth == path@.len(),
        node_type == NodeType::Dir && totals_fit(models(entries@)) ==> subtree_total(
            models(entries@),
            texts(path@),
        ) <= u64::MAX,
    ensures
        totals_fit(models(entries@)) ==> r is Some,
        match r {
            Some(n) => {
                &&& built_from(n, models(entries@), texts(path@), depth as int)
                &&& n.name@ == name@
                &&& n.node_type == node_type
                &&& n.modified == modified
                &&& (node_type != NodeType::Dir ==> n.size == own_size)
            },
            None => true,
        },
    decreases max_len(models(entries@)) - texts(path@).len(),
{
    let ghost s = models(entries@);
    let ghost p = texts(path@);
    let idx = entries_below(entries, buckets, path);
    let _n = entries.len();
    proof {
        lemma_children_below(s, p, s.len() as int);
        lemma_sum_entries_children(s, p, s.len() as int);
    }
    let mut children: Vec<DiskNode> = Vec::new();
    let mut total: u64 = 0;
    let mut k: usize = 0;
    proof {
        assert(idx@.subrange(0, 0) =~= Seq::<usize>::empty());
    }
    while k < idx.len()
        invariant
            k <= idx@.len(),
            s == models(entries@),
            p == texts(path@),
            p.len() <= max_len(s),
            depth == path@.len(),
            idx@ == children_of(s, p),
            forall|j: int|
                0 <= j < idx@.len() ==> #[trigger] idx@[j] < s.len() && parent_is(
                    s[idx@[j] as int],
                    p,
                ),
            sum_entries(s, idx@) == children_total(s, p, s.len() as int),
            node_type == NodeType::Dir && totals_fit(s) ==> subtree_total(s, p) <= u64::MAX,
            node_type == NodeType::Dir ==> total == sum_entries(s, idx@.subrange(0, k as int)),
            forall|h: u64|
                #[trigger] buckets@.contains_key(h) ==> buckets@[h]@ == hashed_upto(
                    s,
                    h,
                    entries@.len() as int,
                ),
            forall|h: u64|
                !(#[trigger] buckets@.contains_key(h)) ==> hashed_upto(
                    s,
                    h,
                    entries@.len() as int,
                ).len() == 0,
            children@.len() == k,
            forall|j: int|
                0 <= j < k ==> {
                    let e = s[idx@[j] as int];
                    let c = #[trigger] children@[j];
                    &&& c.name@ == e.comps.last()
                    &&& c.node_type == e.node_type
                    &&& c.modified == e.modified
                    &&& (c.node_type != NodeType::Dir ==> c.size == e.size)
                    &&& built_from(c, s, e.comps, depth + 1)
                },
        decreases idx@.len() - k,
    {
        let i = idx[k];
        let e = &entries[i];
        let ghost em = s[i as int];
        proof {
            assert(em == entries@[i as int]@);
            lemma_max_len(s, i as int);
            lemma_sum_entries_prefix(s, idx@, k as int + 1);
            assert(idx@.subrange(0, k as int + 1).drop_last() =~= idx@.subrange(0, k as int));
            if em.node_type == NodeType::Dir {
                assert(entry_total(s, i as int) == subtree_total(s, em.comps));
            }
        }
        let child_name = e.components[e.components.len() - 1].clone();
        let child = match build_node(
            entries,
            buckets,
            e.components.as_slice(),
            child_name,
            e.node_type,
            e.size,
            e.modified,
            depth + 1,
        ) {
            Some(c) => c,
            None => {
                return None;
            },
        };
        if node_type == NodeType::Dir {
            proof {
                assert(child.size == entry_total(s, i as int));
            }
            match total.checked_add(child.size) {
                Some(t) => {
                    total = t;
                },
                None => {
                    proof {
                        assert(sum_entries(s, idx@) == subtree_total(s, p));
                    }
                    return None;
                },
            }
        }
        children.push(child);
        k = k + 1;
    }
    let size = if node_type == NodeType::Dir {
        proof {
            assert(idx@.subrange(0, k as int) =~= idx@);
        }
        total
    } else {
        own_size
    };
    Some(DiskNode { name, size, node_type, children, depth, modified })
}

/// Every directory's total (the scan root's included) fits in 64 bits.
pub open spec fn totals_fit(s: Seq<EntryModel>) -> bool {
    &&& subtree_total(s, Seq::empty()) <= u64::MAX
    &&& forall|i: int|
        0 <= i < s.len() && (#[trigger] s[i]).node_type == NodeType::Dir ==> subtree_total(
            s,
            s[i].comps,
        ) <= u64::MAX
}

/// Build a DiskNode tree from a flat list of entries by grouping children under their
/// parent paths. The root is a directory named `root_name`. There is no tree when the
/// bytes below a directory do not fit in 64 bits; when every directory's total fits,
/// there is one.
pub fn build_tree(root_name: String, entries: &Vec<RawEntry>) -> (r: Option<DiskNode>)
    ensures
        totals_fit(models(entries@)) ==> r is Some,
        match r {
            Some(root) => {
                &&& built_from(root, models(entries@), Seq::empty(), 0)
                &&& root.name@ == root_name@
                &&& root.node_type == NodeType::Dir
                &&& root.modified is None
            },
            None => true,
        },
{
    let buckets = bucket_entries(entries);
    let root_path: Vec<String> = Vec::new();
    proof {
        assert(texts(root_path@) =~= Seq::<Seq<char>>::empty());
    }
    build_node(entries, &buckets, root_path.as_slice(), root_name, NodeType::Dir, 0, None, 0)
}

} // verus!
