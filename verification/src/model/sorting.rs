use vstd::prelude::*;

verus! {

/// A key by which a sequence of items is put in ascending order.
pub trait SortKey {
    spec fn key_spec(&self) -> int;

    fn sort_key(&self) -> (k: i128)
        ensures
            k as int == self.key_spec(),
    ;
}

/// `p` lists each index of `0..n` exactly once.
pub open spec fn is_permutation(p: Seq<int>, n: int) -> bool {
    &&& p.len() == n
    &&& forall|i: int| 0 <= i < n ==> 0 <= #[trigger] p[i] < n
    &&& forall|i: int, j: int| 0 <= i < j < n ==> #[trigger] p[i] != #[trigger] p[j]
}

/// `new` is `old` reordered by the permutation `p` (`new[k] == old[p[k]]`), ascending by
/// key, with items of equal key in their original relative order.
pub open spec fn stable_sort_witness<T: SortKey>(new: Seq<T>, old: Seq<T>, p: Seq<int>) -> bool {
    &&& new.len() == old.len()
    &&& is_permutation(p, old.len() as int)
    &&& forall|k: int| 0 <= k < new.len() ==> #[trigger] new[k] == old[p[k]]
    &&& forall|i: int, j: int|
        0 <= i < j < new.len() ==> (#[trigger] new[i]).key_spec() <= (#[trigger] new[j]).key_spec()
    &&& forall|i: int, j: int|
        0 <= i < j < new.len() && (#[trigger] new[i]).key_spec() == (#[trigger] new[j]).key_spec()
            ==> p[i] < p[j]
}

/// `new` is the stable ascending sort of `old` by key.
pub open spec fn is_stable_sort<T: SortKey>(new: Seq<T>, old: Seq<T>) -> bool {
    exists|p: Seq<int>| stable_sort_witness(new, old, p)
}

/// Calls `slice::sort_by_key` with the items' own key.
/// The standard library documents this sort as stable and ascending by key;
/// the contract claims exactly that of the reordered vector.
#[verifier::external_body]
pub(crate) fn stable_sort_by_key<T: SortKey>(v: &mut Vec<T>)
    ensures
        is_stable_sort(final(v)@, old(v)@),
{
    v.sort_by_key(|x| x.sort_key());
}

/// Sum of a sequence of integers.
pub open spec fn seq_sum(s: Seq<int>) -> int
    decreases s.len(),
{
    if s.len() == 0 {
        0
    } else {
        seq_sum(s.drop_last()) + s.last()
    }
}

/// Taking one element out of a sequence takes its value out of the sum.
pub proof fn lemma_seq_sum_remove(s: Seq<int>, j: int)
    requires
        0 <= j < s.len(),
    ensures
        seq_sum(s) == seq_sum(s.remove(j)) + s[j],
    decreases s.len(),
{
    if j == s.len() - 1 {
        assert(s.remove(j) =~= s.drop_last());
    } else {
        lemma_seq_sum_remove(s.drop_last(), j);
        assert(s.remove(j).drop_last() =~= s.drop_last().remove(j));
        assert(s.remove(j).last() == s.last());
    }
}

/// Reordering a sequence by a permutation leaves its sum unchanged.
pub proof fn lemma_seq_sum_permuted(a: Seq<int>, b: Seq<int>, p: Seq<int>)
    requires
        a.len() == b.len(),
        is_permutation(p, b.len() as int),
        forall|k: int| 0 <= k < a.len() ==> #[trigger] a[k] == b[p[k]],
    ensures
        seq_sum(a) == seq_sum(b),
    decreases a.len(),
{
    let n = a.len() as int;
    if n > 0 {
        let j = p[n - 1];
        let b2 = b.remove(j);
        let a2 = a.drop_last();
        let q = Seq::new((n - 1) as nat, |k: int| if p[k] < j { p[k] } else { p[k] - 1 });
        assert forall|k: int| 0 <= k < n - 1 implies 0 <= #[trigger] q[k] < n - 1 by {
            assert(p[k] != p[n - 1]);
        }
        assert forall|x: int, y: int| 0 <= x < y < n - 1 implies #[trigger] q[x] != #[trigger] q[y] by {
            assert(p[x] != p[y]);
            assert(p[x] != j);
            assert(p[y] != j);
        }
        assert forall|k: int| 0 <= k < n - 1 implies #[trigger] a2[k] == b2[q[k]] by {
            assert(a[k] == b[p[k]]);
            assert(p[k] != j);
        }
        lemma_seq_sum_permuted(a2, b2, q);
        lemma_seq_sum_remove(b, j);
        assert(a[n - 1] == b[j]);
    }
}

/// A permutation of `0..n` takes every value of `0..n`.
pub proof fn lemma_permutation_onto(p: Seq<int>, n: int, j: int)
    requires
        is_permutation(p, n),
        0 <= j < n,
    ensures
        exists|k: int| 0 <= k < n && #[trigger] p[k] == j,
    decreases n,
{
    let j0 = p[n - 1];
    if j == j0 {
        assert(p[n - 1] == j);
    } else {
        let q = Seq::new((n - 1) as nat, |k: int| if p[k] < j0 { p[k] } else { p[k] - 1 });
        assert forall|k: int| 0 <= k < n - 1 implies 0 <= #[trigger] q[k] < n - 1 by {
            assert(p[k] != p[n - 1]);
        }
        assert forall|x: int, y: int| 0 <= x < y < n - 1 implies #[trigger] q[x] != #[trigger] q[y] by {
            assert(p[x] != p[y]);
            assert(p[x] != j0);
            assert(p[y] != j0);
        }
        let jq = if j < j0 {
            j
        } else {
            j - 1
        };
        lemma_permutation_onto(q, n - 1, jq);
        let k = choose|k: int| 0 <= k < n - 1 && #[trigger] q[k] == jq;
        assert(p[k] != j0);
        assert(p[k] == j);
    }
}

} // verus!
