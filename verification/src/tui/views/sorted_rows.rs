use vstd::prelude::*;
use vstd::multiset::Multiset;

use crate::model::node::{DiskNode, NodeType};
use crate::model::order::{sorted_by, ordered_by, SortConfig};
use crate::model::sorting::{is_permutation, lemma_permutation_onto};
use crate::tui::filter::{matches_spec, FilterCriteria};
use crate::tui::views::tree::{
    any_match, child_block, flatten_from, has_match, row_for, shown, RowModel,
};

verus! {

/// A row without its index path: what the row shows, named by its name path.
pub open spec fn row_key(r: RowModel) -> RowModel {
    RowModel { path_indices: Seq::empty(), ..r }
}

/// The rows of a view, each without its index path, counted with multiplicity.
pub open spec fn row_bag(rows: Seq<RowModel>) -> Multiset<RowModel> {
    rows.map_values(|r: RowModel| row_key(r)).to_multiset()
}

/// The rows (without index paths) that the subtrees `s`, under the name path `pn`, put
/// in the tree view.
pub open spec fn list_bag(
    s: Seq<DiskNode>,
    expanded: Set<Seq<Seq<char>>>,
    filter: Option<&FilterCriteria>,
    now: int,
    pn: Seq<Seq<char>>,
) -> Multiset<RowModel>
    decreases s, 1int,
{
    if s.len() == 0 {
        Multiset::empty()
    } else {
        block_bag(s[0], expanded, filter, now, pn).add(
            list_bag(s.drop_first(), expanded, filter, now, pn),
        )
    }
}

/// The rows (without index paths) that the subtree `c`, under the name path `pn`, puts
/// in the tree view.
pub open spec fn block_bag(
    c: DiskNode,
    expanded: Set<Seq<Seq<char>>>,
    filter: Option<&FilterCriteria>,
    now: int,
    pn: Seq<Seq<char>>,
) -> Multiset<RowModel>
    decreases c, 0int,
{
    if !shown(c, filter, now) {
        Multiset::empty()
    } else {
        let np = pn.push(c.name@);
        Multiset::singleton(row_key(row_for(c, 0, expanded, Seq::empty(), pn))).add(
            if expanded.contains(np) {
                list_bag(c.children@, expanded, filter, now, np)
            } else {
                Multiset::empty()
            },
        )
    }
}

proof fn lemma_bag_empty()
    ensures
        row_bag(Seq::<RowModel>::empty()) == Multiset::<RowModel>::empty(),
{
    broadcast use vstd::seq_lib::group_to_multiset_ensures;
    broadcast use vstd::multiset::group_multiset_axioms;

    let s = Seq::<RowModel>::empty().map_values(|r: RowModel| row_key(r));
    assert(s =~= Seq::<RowModel>::empty());
    assert forall|r: RowModel| s.to_multiset().count(r) == 0 by {
        if s.to_multiset().count(r) > 0 {
            assert(s.to_multiset().contains(r));
            assert(s.contains(r));
        }
    }
    assert(s.to_multiset() =~= Multiset::<RowModel>::empty());
}

proof fn lemma_bag_of_concat(a: Seq<RowModel>, b: Seq<RowModel>)
    ensures
        row_bag(a + b) == row_bag(a).add(row_bag(b)),
{
    let f = |r: RowModel| row_key(r);
    assert((a + b).map_values(f) =~= a.map_values(f) + b.map_values(f));
    vstd::seq_lib::lemma_multiset_commutative(a.map_values(f), b.map_values(f));
}

proof fn lemma_flatten_bag(
    ch: Seq<DiskNode>,
    i: int,
    expanded: Set<Seq<Seq<char>>>,
    filter: Option<&FilterCriteria>,
    now: int,
    pi: Seq<usize>,
    pn: Seq<Seq<char>>,
)
    requires
        0 <= i <= ch.len(),
    ensures
        row_bag(flatten_from(ch, i, expanded, filter, now, pi, pn)) == list_bag(
            ch.subrange(i, ch.len() as int),
            expanded,
            filter,
            now,
            pn,
        ),
    decreases ch, ch.len() - i,
{
    let rest = ch.subrange(i, ch.len() as int);
    if i == ch.len() {
        assert(flatten_from(ch, i, expanded, filter, now, pi, pn) =~= Seq::empty());
        lemma_bag_empty();
    } else {
        assert(decreases_to!(ch => ch[i]));
        lemma_block_bag(ch[i], i, expanded, filter, now, pi, pn);
        lemma_flatten_bag(ch, i + 1, expanded, filter, now, pi, pn);
        lemma_bag_of_concat(
            child_block(ch[i], i, expanded, filter, now, pi, pn),
            flatten_from(ch, i + 1, expanded, filter, now, pi, pn),
        );
        assert(rest.drop_first() =~= ch.subrange(i + 1, ch.len() as int));
        assert(rest[0] == ch[i]);
    }
}

proof fn lemma_block_bag(
    c: DiskNode,
    i: int,
    expanded: Set<Seq<Seq<char>>>,
    filter: Option<&FilterCriteria>,
    now: int,
    pi: Seq<usize>,
    pn: Seq<Seq<char>>,
)
    ensures
        row_bag(child_block(c, i, expanded, filter, now, pi, pn)) == block_bag(
            c,
            expanded,
            filter,
            now,
            pn,
        ),
    decreases c, 0int,
{
    if !shown(c, filter, now) {
        lemma_bag_empty();
    } else {
        let np = pn.push(c.name@);
        let ip = pi.push(i as usize);
        let head = seq![row_for(c, i, expanded, pi, pn)];
        let tail = if expanded.contains(np) {
            flatten_from(c.children@, 0, expanded, filter, now, ip, np)
        } else {
            Seq::empty()
        };
        lemma_bag_of_concat(head, tail);
        assert(head.map_values(|r: RowModel| row_key(r)) =~= seq![
            row_key(row_for(c, 0, expanded, Seq::empty(), pn)),
        ]);
        assert(row_bag(head) =~= Multiset::singleton(
            row_key(row_for(c, 0, expanded, Seq::empty(), pn)),
        )) by {
            broadcast use vstd::multiset::group_multiset_axioms;

            let x = row_key(row_for(c, 0, expanded, Seq::empty(), pn));
            let s = seq![x];
            assert(s =~= Seq::<RowModel>::empty().push(x));
            vstd::seq_lib::to_multiset_build(Seq::<RowModel>::empty(), x);
            lemma_bag_empty();
            assert(Seq::<RowModel>::empty().map_values(|r: RowModel| row_key(r))
                =~= Seq::<RowModel>::empty());
            assert(Seq::<RowModel>::empty().to_multiset() =~= Multiset::empty());
        }
        if expanded.contains(np) {
            assert(decreases_to!(c => c.children@));
            lemma_flatten_bag(c.children@, 0, expanded, filter, now, ip, np);
            assert(c.children@.subrange(0, c.children@.len() as int) =~= c.children@);
        } else {
            lemma_bag_empty();
        }
    }
}

proof fn lemma_list_bag_remove(
    s: Seq<DiskNode>,
    j: int,
    expanded: Set<Seq<Seq<char>>>,
    filter: Option<&FilterCriteria>,
    now: int,
    pn: Seq<Seq<char>>,
)
    requires
        0 <= j < s.len(),
    ensures
        list_bag(s, expanded, filter, now, pn) == list_bag(s.remove(j), expanded, filter, now, pn).add(
            block_bag(s[j], expanded, filter, now, pn),
        ),
    decreases s.len(),
{
    broadcast use vstd::multiset::group_multiset_axioms;

    if j == 0 {
        assert(s.remove(0) =~= s.drop_first());
        assert(list_bag(s, expanded, filter, now, pn) =~= list_bag(
            s.remove(j),
            expanded,
            filter,
            now,
            pn,
        ).add(block_bag(s[j], expanded, filter, now, pn)));
    } else {
        lemma_list_bag_remove(s.drop_first(), j - 1, expanded, filter, now, pn);
        assert(s.remove(j).drop_first() =~= s.drop_first().remove(j - 1));
        assert(s.remove(j)[0] == s[0]);
        assert(s.drop_first()[j - 1] == s[j]);
        assert(list_bag(s, expanded, filter, now, pn) =~= list_bag(
            s.remove(j),
            expanded,
            filter,
            now,
            pn,
        ).add(block_bag(s[j], expanded, filter, now, pn)));
    }
}

proof fn lemma_list_bag_permuted(
    a: Seq<DiskNode>,
    b: Seq<DiskNode>,
    p: Seq<int>,
    expanded: Set<Seq<Seq<char>>>,
    filter: Option<&FilterCriteria>,
    now: int,
    pn: Seq<Seq<char>>,
)
    requires
        a.len() == b.len(),
        is_permutation(p, b.len() as int),
        forall|k: int|
            0 <= k < a.len() ==> #[trigger] block_bag(a[k], expanded, filter, now, pn) == block_bag(
                b[p[k]],
                expanded,
                filter,
                now,
                pn,
            ),
    ensures
        list_bag(a, expanded, filter, now, pn) == list_bag(b, expanded, filter, now, pn),
    decreases a.len(),
{
    let n = a.len() as int;
    if n == 0 {
        assert(list_bag(a, expanded, filter, now, pn) == list_bag(b, expanded, filter, now, pn));
    } else {
        let j = p[n - 1];
        let b2 = b.remove(j);
        let a2 = a.remove(n - 1);
        let q = Seq::new((n - 1) as nat, |k: int| if p[k] < j { p[k] } else { p[k] - 1 });
        assert forall|k: int| 0 <= k < n - 1 implies 0 <= #[trigger] q[k] < n - 1 by {
            assert(p[k] != p[n - 1]);
        }
        assert forall|x: int, y: int| 0 <= x < y < n - 1 implies #[trigger] q[x] != #[trigger] q[y] by {
            assert(p[x] != p[y]);
            assert(p[x] != j);
            assert(p[y] != j);
        }
        assert forall|k: int| 0 <= k < n - 1 implies #[trigger] block_bag(
            a2[k],
            expanded,
            filter,
            now,
            pn,
        ) == block_bag(b2[q[k]], expanded, filter, now, pn) by {
            assert(a2[k] == a[k]);
            assert(block_bag(a[k], expanded, filter, now, pn) == block_bag(
                b[p[k]],
                expanded,
                filter,
                now,
                pn,
            ));
            assert(p[k] != j);
        }
        lemma_list_bag_permuted(a2, b2, q, expanded, filter, now, pn);
        lemma_list_bag_remove(a, n - 1, expanded, filter, now, pn);
        lemma_list_bag_remove(b, j, expanded, filter, now, pn);
        assert(block_bag(a[n - 1], expanded, filter, now, pn) == block_bag(
            b[j],
            expanded,
            filter,
            now,
            pn,
        ));
    }
}

/// Whether `c` shows up, or holds a match, decided by a single child: the term that
/// `any_match` adds for it.
pub open spec fn hit(c: DiskNode, f: FilterCriteria, now: int) -> bool {
    (c.node_type != NodeType::Dir && matches_spec(f, c, now)) || (c.node_type == NodeType::Dir
        && has_match(c, f, now))
}

proof fn lemma_any_match_exists(s: Seq<DiskNode>, f: FilterCriteria, now: int)
    ensures
        any_match(s, f, now) == exists|k: int| 0 <= k < s.len() && #[trigger] hit(s[k], f, now),
    decreases s.len(),
{
    if s.len() > 0 {
        lemma_any_match_exists(s.drop_last(), f, now);
        assert(s.last() == s[s.len() - 1]);
        if hit(s.last(), f, now) {
            assert(hit(s[s.len() - 1], f, now));
        }
        if any_match(s.drop_last(), f, now) {
            let k = choose|k: int|
                0 <= k < s.drop_last().len() && #[trigger] hit(s.drop_last()[k], f, now);
            assert(hit(s[k], f, now));
        }
        if exists|k: int| 0 <= k < s.len() && #[trigger] hit(s[k], f, now) {
            let k = choose|k: int| 0 <= k < s.len() && #[trigger] hit(s[k], f, now);
            if k < s.len() - 1 {
                assert(hit(s.drop_last()[k], f, now));
            }
        }
    }
}

/// Sorting keeps whether a directory holds a match of the filter.
proof fn lemma_sorted_has_match(new: DiskNode, old: DiskNode, c: SortConfig, f: FilterCriteria, now: int)
    requires
        sorted_by(new, old, c),
    ensures
        has_match(new, f, now) == has_match(old, f, now),
        hit(new, f, now) == hit(old, f, now),
    decreases old,
{
    let p = choose|p: Seq<int>|
        #[trigger] ordered_by(new.children@, old.children@, p, c) && forall|k: int|
            0 <= k < new.children@.len() ==> sorted_by(
                #[trigger] new.children@[k],
                old.children@[p[k]],
                c,
            );
    let nc = new.children@;
    let oc = old.children@;
    let n = nc.len() as int;
    assert forall|k: int| 0 <= k < n implies #[trigger] hit(nc[k], f, now) == hit(oc[p[k]], f, now) by {
        assert(sorted_by(nc[k], oc[p[k]], c));
        assert(decreases_to!(old => oc[p[k]]));
        lemma_sorted_has_match(nc[k], oc[p[k]], c, f, now);
    }
    lemma_any_match_exists(nc, f, now);
    lemma_any_match_exists(oc, f, now);
    if any_match(oc, f, now) {
        let j = choose|j: int| 0 <= j < oc.len() && #[trigger] hit(oc[j], f, now);
        lemma_permutation_onto(p, n, j);
        let k = choose|k: int| 0 <= k < n && #[trigger] p[k] == j;
        assert(hit(nc[k], f, now));
    }
    if any_match(nc, f, now) {
        let k = choose|k: int| 0 <= k < nc.len() && #[trigger] hit(nc[k], f, now);
        assert(hit(oc[p[k]], f, now));
    }
}

proof fn lemma_sorted_block_bag(
    new: DiskNode,
    old: DiskNode,
    c: SortConfig,
    expanded: Set<Seq<Seq<char>>>,
    filter: Option<&FilterCriteria>,
    now: int,
    pn: Seq<Seq<char>>,
)
    requires
        sorted_by(new, old, c),
    ensures
        block_bag(new, expanded, filter, now, pn) == block_bag(old, expanded, filter, now, pn),
        list_bag(new.children@, expanded, filter, now, pn.push(new.name@)) == list_bag(
            old.children@,
            expanded,
            filter,
            now,
            pn.push(old.name@),
        ),
    decreases old,
{
    let p = choose|p: Seq<int>|
        #[trigger] ordered_by(new.children@, old.children@, p, c) && forall|k: int|
            0 <= k < new.children@.len() ==> sorted_by(
                #[trigger] new.children@[k],
                old.children@[p[k]],
                c,
            );
    let nc = new.children@;
    let oc = old.children@;
    let np = pn.push(new.name@);
    assert forall|k: int| 0 <= k < nc.len() implies #[trigger] block_bag(
        nc[k],
        expanded,
        filter,
        now,
        np,
    ) == block_bag(oc[p[k]], expanded, filter, now, np) by {
        assert(sorted_by(nc[k], oc[p[k]], c));
        assert(decreases_to!(old => oc[p[k]]));
        lemma_sorted_block_bag(nc[k], oc[p[k]], c, expanded, filter, now, np);
    }
    lemma_list_bag_permuted(nc, oc, p, expanded, filter, now, np);
    match filter {
        Some(f) => {
            lemma_sorted_has_match(new, old, c, *f, now);
        },
        None => {},
    }
    assert(shown(new, filter, now) == shown(old, filter, now));
    assert(row_key(row_for(new, 0, expanded, Seq::empty(), pn)) == row_key(
        row_for(old, 0, expanded, Seq::empty(), pn),
    ));
}

/// The tree view's expanded state is kept by name paths, so it survives sorting: after
/// the children of every node are reordered under any configuration, the tree view
/// with the same expanded paths and filter shows the same rows, each with the same
/// name path, name, size, type, depth and expanded mark, as many times as before; only
/// their order and index paths change.
pub proof fn lemma_sorting_keeps_rows(
    new: DiskNode,
    old: DiskNode,
    c: SortConfig,
    expanded: Set<Seq<Seq<char>>>,
    filter: Option<&FilterCriteria>,
    now: int,
)
    requires
        sorted_by(new, old, c),
    ensures
        row_bag(flatten_from(new.children@, 0, expanded, filter, now, Seq::empty(), Seq::empty()))
            == row_bag(
            flatten_from(old.children@, 0, expanded, filter, now, Seq::empty(), Seq::empty()),
        ),
        forall|r: RowModel|
            row_bag(
                flatten_from(new.children@, 0, expanded, filter, now, Seq::empty(), Seq::empty()),
            ).contains(r) <==> row_bag(
                flatten_from(old.children@, 0, expanded, filter, now, Seq::empty(), Seq::empty()),
            ).contains(r),
{
    let e = Seq::<usize>::empty();
    let en = Seq::<Seq<char>>::empty();
    lemma_flatten_bag(new.children@, 0, expanded, filter, now, e, en);
    lemma_flatten_bag(old.children@, 0, expanded, filter, now, e, en);
    assert(new.children@.subrange(0, new.children@.len() as int) =~= new.children@);
    assert(old.children@.subrange(0, old.children@.len() as int) =~= old.children@);
    let p = choose|p: Seq<int>|
        #[trigger] ordered_by(new.children@, old.children@, p, c) && forall|k: int|
            0 <= k < new.children@.len() ==> sorted_by(
                #[trigger] new.children@[k],
                old.children@[p[k]],
                c,
            );
    let nc = new.children@;
    let oc = old.children@;
    assert forall|k: int| 0 <= k < nc.len() implies #[trigger] block_bag(
        nc[k],
        expanded,
        filter,
        now,
        en,
    ) == block_bag(oc[p[k]], expanded, filter, now, en) by {
        assert(sorted_by(nc[k], oc[p[k]], c));
        lemma_sorted_block_bag(nc[k], oc[p[k]], c, expanded, filter, now, en);
    }
    lemma_list_bag_permuted(nc, oc, p, expanded, filter, now, en);
}

} // verus!
