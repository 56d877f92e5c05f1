//! What sorting and grouping a catalog keep: every entry, ordered by name,
//! each in the one group of its category.

use vstd::prelude::*;
use vstd::multiset::Multiset;
use crate::catalog::{
    add_to_groups, categorized, find_group, grouped, insert_pos, lex_lt, stable_sorted,
    Categorized, Named,
};

verus! {

broadcast use vstd::seq_lib::to_multiset_insert, vstd::seq_lib::to_multiset_build;

/// Whether the entries of `s` are ordered by name: no entry's name comes
/// before the name of an entry in front of it.
pub open spec fn name_sorted<T: Named>(s: Seq<T>) -> bool {
    forall|i: int, j: int|
        0 <= i < j < s.len() ==> !lex_lt(#[trigger] s[j].name_view(), #[trigger] s[i].name_view())
}

/// The order of names is transitive.
pub proof fn lemma_lex_lt_transitive(a: Seq<char>, b: Seq<char>, c: Seq<char>)
    requires
        lex_lt(a, b),
        lex_lt(b, c),
    ensures
        lex_lt(a, c),
    decreases a.len(),
{
    if a.len() > 0 && b.len() > 0 && c.len() > 0 && a[0] == b[0] && b[0] == c[0] {
        lemma_lex_lt_transitive(a.drop_first(), b.drop_first(), c.drop_first());
    }
}

/// Where `insert_pos` puts `x`: after every entry whose name does not come
/// after `x`'s, before one whose name does.
proof fn lemma_insert_pos<T: Named>(s: Seq<T>, x: T)
    ensures
        insert_pos(s, x) <= s.len(),
        forall|i: int| 0 <= i < insert_pos(s, x) ==> !lex_lt(x.name_view(), #[trigger] s[i].name_view()),
        insert_pos(s, x) < s.len() ==> lex_lt(x.name_view(), s[insert_pos(s, x) as int].name_view()),
    decreases s.len(),
{
    if s.len() > 0 && !lex_lt(x.name_view(), s[0].name_view()) {
        let t = s.drop_first();
        lemma_insert_pos(t, x);
        assert forall|i: int| 0 <= i < insert_pos(s, x) implies !lex_lt(
            x.name_view(),
            #[trigger] s[i].name_view(),
        ) by {
            if i > 0 {
                assert(s[i] == t[i - 1]);
            }
        }
    }
}

/// Inserting an entry where `insert_pos` puts it keeps a sorted sequence
/// sorted.
proof fn lemma_insert_sorted<T: Named>(r: Seq<T>, x: T)
    requires
        name_sorted(r),
    ensures
        name_sorted(r.insert(insert_pos(r, x) as int, x)),
{
    lemma_insert_pos(r, x);
    let k = insert_pos(r, x) as int;
    let n = r.insert(k, x);
    assert forall|i: int, j: int| 0 <= i < j < n.len() implies !lex_lt(
        #[trigger] n[j].name_view(),
        #[trigger] n[i].name_view(),
    ) by {
        if j < k {
            assert(n[i] == r[i] && n[j] == r[j]);
        } else if j == k {
            assert(n[i] == r[i]);
        } else if i == k {
            assert(n[j] == r[j - 1]);
            if lex_lt(r[j - 1].name_view(), x.name_view()) {
                lemma_lex_lt_transitive(r[j - 1].name_view(), x.name_view(), r[k].name_view());
                if j - 1 > k {
                    assert(!lex_lt(r[j - 1].name_view(), r[k].name_view()));
                }
                lemma_lex_lt_irreflexive(r[k].name_view());
            }
        } else if i < k {
            assert(n[i] == r[i] && n[j] == r[j - 1]);
        } else {
            assert(n[i] == r[i - 1] && n[j] == r[j - 1]);
        }
    }
}

/// No name comes before itself.
pub proof fn lemma_lex_lt_irreflexive(a: Seq<char>)
    ensures
        !lex_lt(a, a),
    decreases a.len(),
{
    if a.len() > 0 {
        lemma_lex_lt_irreflexive(a.drop_first());
    }
}

/// Sorting by name keeps every entry, as often as it occurs, and orders
/// the entries by name.
pub proof fn law_sort_by_name<T: Named>(s: Seq<T>)
    ensures
        name_sorted(stable_sorted(s)),
        stable_sorted(s).to_multiset() == s.to_multiset(),
    decreases s.len(),
{
    if s.len() > 0 {
        let p = s.drop_last();
        law_sort_by_name(p);
        let r = stable_sorted(p);
        lemma_insert_sorted(r, s.last());
        lemma_insert_pos(r, s.last());
        assert(p.push(s.last()) =~= s);
    }
}


/// The entries of `s` named `n`, in their order.
pub open spec fn named<T: Named>(s: Seq<T>, n: Seq<char>) -> Seq<T>
    decreases s.len(),
{
    if s.len() == 0 {
        seq![]
    } else if s.last().name_view() == n {
        named(s.drop_last(), n).push(s.last())
    } else {
        named(s.drop_last(), n)
    }
}

proof fn lemma_named_concat<T: Named>(a: Seq<T>, b: Seq<T>, n: Seq<char>)
    ensures
        named(a + b, n) == named(a, n) + named(b, n),
    decreases b.len(),
{
    if b.len() == 0 {
        assert(a + b =~= a);
        assert(named(a, n) + named(b, n) =~= named(a, n));
    } else {
        lemma_named_concat(a, b.drop_last(), n);
        assert((a + b).drop_last() =~= a + b.drop_last());
        assert((a + b).last() == b.last());
        if b.last().name_view() == n {
            assert(named(a + b, n) =~= named(a, n) + named(b, n));
        }
    }
}

proof fn lemma_named_none<T: Named>(s: Seq<T>, n: Seq<char>)
    requires
        forall|i: int| 0 <= i < s.len() ==> (#[trigger] s[i]).name_view() != n,
    ensures
        named(s, n) == Seq::<T>::empty(),
    decreases s.len(),
{
    if s.len() > 0 {
        lemma_named_none(s.drop_last(), n);
    }
}

/// Sorting by name is stable: the entries of any one name come out in the
/// order they came in.
pub proof fn law_sort_is_stable<T: Named>(s: Seq<T>, n: Seq<char>)
    ensures
        named(stable_sorted(s), n) == named(s, n),
    decreases s.len(),
{
    if s.len() > 0 {
        let p = s.drop_last();
        let x = s.last();
        law_sort_is_stable(p, n);
        law_sort_by_name(p);
        let r = stable_sorted(p);
        lemma_insert_pos(r, x);
        let k = insert_pos(r, x) as int;
        let front = r.take(k);
        let back = r.skip(k);
        assert forall|j: int| 0 <= j < back.len() implies (#[trigger] back[j]).name_view()
            != x.name_view() by {
            assert(back[j] == r[k + j]);
            if r[k + j].name_view() == x.name_view() {
                if j == 0 {
                    lemma_lex_lt_irreflexive(x.name_view());
                } else {
                    assert(!lex_lt(r[k + j].name_view(), r[k].name_view()));
                }
            }
        }
        assert(r =~= front + back);
        assert(r.insert(k, x) =~= front + seq![x] + back);
        lemma_named_concat(front, back, n);
        lemma_named_concat(front, seq![x], n);
        lemma_named_concat(front + seq![x], back, n);
        assert(named(seq![x], n) == (if x.name_view() == n {
            seq![x]
        } else {
            Seq::<T>::empty()
        })) by {
            let e = Seq::<T>::empty();
            assert(seq![x].drop_last() =~= e);
            assert(seq![x].last() == x);
            assert(named(e, n) == e);
            assert(e.push(x) =~= seq![x]);
        }
        if x.name_view() == n {
            lemma_named_none(back, n);
        }
        assert(p.push(x) =~= s);
        assert(s.drop_last() == p);
    }
}

/// The entries of all groups together.
pub open spec fn members<T>(gs: Seq<(Seq<char>, Seq<T>)>) -> Multiset<T>
    decreases gs.len(),
{
    if gs.len() == 0 {
        Multiset::empty()
    } else {
        members(gs.drop_last()).add(gs.last().1.to_multiset())
    }
}

/// Whether `gs` groups entries by category: no group is empty, every entry
/// of a group has the group's category, and no two groups have the same
/// category.
pub open spec fn well_grouped<T: Categorized>(gs: Seq<(Seq<char>, Seq<T>)>) -> bool {
    &&& forall|k: int| 0 <= k < gs.len() ==> (#[trigger] gs[k]).1.len() > 0
    &&& forall|k: int, i: int|
        0 <= k < gs.len() && 0 <= i < gs[k].1.len() ==> (#[trigger] gs[k].1[i]).category_view()
            == gs[k].0
    &&& forall|k: int, l: int| 0 <= k < l < gs.len() ==> (#[trigger] gs[k]).0 != (#[trigger] gs[l]).0
}

/// Replacing one group by one with one more entry adds that entry.
proof fn lemma_members_update<T>(gs: Seq<(Seq<char>, Seq<T>)>, k: int, g: Seq<T>, x: T)
    requires
        0 <= k < gs.len(),
        g.to_multiset() == gs[k].1.to_multiset().insert(x),
    ensures
        members(gs.update(k, (gs[k].0, g))) == members(gs).insert(x),
    decreases gs.len(),
{
    broadcast use vstd::multiset::group_multiset_axioms;

    let u = gs.update(k, (gs[k].0, g));
    if k == gs.len() - 1 {
        assert(u.drop_last() =~= gs.drop_last());
        assert(members(u) =~= members(gs).insert(x));
    } else {
        lemma_members_update(gs.drop_last(), k, g, x);
        assert(u.drop_last() =~= gs.drop_last().update(k, (gs[k].0, g)));
        assert(members(u) =~= members(gs).insert(x));
    }
}

/// Adding an entry to the groups keeps them grouped by category and adds
/// the entry to their members.
proof fn lemma_add_to_groups<T: Categorized>(gs: Seq<(Seq<char>, Seq<T>)>, x: T)
    requires
        well_grouped(gs),
    ensures
        well_grouped(add_to_groups(gs, x)),
        members(add_to_groups(gs, x)) == members(gs).insert(x),
{
    broadcast use vstd::multiset::group_multiset_axioms;

    crate::catalog::lemma_find_group_spec(gs, x.category_view(), 0);
    match find_group(gs, x.category_view(), 0) {
        Some(k) => {
            let g = gs[k as int].1.push(x);
            lemma_members_update(gs, k as int, g, x);
            let n = add_to_groups(gs, x);
            assert forall|j: int, i: int|
                0 <= j < n.len() && 0 <= i < n[j].1.len() implies (#[trigger] n[j].1[i]).category_view()
                == n[j].0 by {
                if j == k && i == gs[k as int].1.len() {
                } else if j == k {
                    assert(n[j].1[i] == gs[j].1[i]);
                }
            }
            assert forall|a: int, b: int| 0 <= a < b < n.len() implies (#[trigger] n[a]).0 != (
            #[trigger] n[b]).0 by {
                assert(n[a].0 == gs[a].0 && n[b].0 == gs[b].0);
            }
            assert forall|j: int| 0 <= j < n.len() implies (#[trigger] n[j]).1.len() > 0 by {
                assert(j != k ==> n[j] == gs[j]);
            }
        },
        None => {
            let n = add_to_groups(gs, x);
            assert(n.drop_last() =~= gs);
            assert(seq![x].to_multiset() =~= Multiset::empty().insert(x)) by {
                assert(seq![x] =~= Seq::<T>::empty().push(x));
                vstd::seq_lib::to_multiset_len(Seq::<T>::empty());
                vstd::multiset::lemma_multiset_empty_len(Seq::<T>::empty().to_multiset());
            }
            assert(members(n) =~= members(gs).insert(x));
            assert forall|j: int, i: int|
                0 <= j < n.len() && 0 <= i < n[j].1.len() implies (#[trigger] n[j].1[i]).category_view()
                == n[j].0 by {
                if j < gs.len() {
                    assert(n[j] == gs[j]);
                }
            }
            assert forall|a: int, b: int| 0 <= a < b < n.len() implies (#[trigger] n[a]).0 != (
            #[trigger] n[b]).0 by {
                assert(n[a] == gs[a]);
            }
        },
    }
}

/// Grouping keeps every entry and groups the entries by category.
proof fn lemma_grouped<T: Categorized>(items: Seq<T>)
    ensures
        well_grouped(grouped(items)),
        members(grouped(items)) == items.to_multiset(),
    decreases items.len(),
{
    broadcast use vstd::multiset::group_multiset_axioms;

    if items.len() == 0 {
        vstd::seq_lib::to_multiset_len(items);
        vstd::multiset::lemma_multiset_empty_len(items.to_multiset());
    } else {
        let p = items.drop_last();
        lemma_grouped(p);
        lemma_add_to_groups(grouped(p), items.last());
        assert(p.push(items.last()) =~= items);
    }
}

/// Sorting each group keeps the members.
proof fn lemma_members_sorted<T: Named + Categorized>(gs: Seq<(Seq<char>, Seq<T>)>)
    ensures
        members(gs.map_values(|g: (Seq<char>, Seq<T>)| (g.0, stable_sorted(g.1)))) == members(gs),
    decreases gs.len(),
{
    let f = |g: (Seq<char>, Seq<T>)| (g.0, stable_sorted(g.1));
    if gs.len() > 0 {
        lemma_members_sorted(gs.drop_last());
        law_sort_by_name(gs.last().1);
        assert(gs.map_values(f).drop_last() =~= gs.drop_last().map_values(f));
    }
}

/// Listing a catalog by category keeps every entry, as often as it occurs;
/// no group is empty, every entry is in the group of its category, no two
/// groups have the same category, and each group is ordered by name.
pub proof fn law_catalog_grouping<T: Named + Categorized>(items: Seq<T>)
    ensures
        well_grouped(categorized(items)),
        members(categorized(items)) == items.to_multiset(),
        forall|k: int|
            0 <= k < categorized(items).len() ==> name_sorted(#[trigger] categorized(items)[k].1),
{
    let gs = grouped(items);
    let cs = categorized(items);
    lemma_grouped(items);
    lemma_members_sorted(gs);
    assert forall|k: int| 0 <= k < cs.len() implies name_sorted(#[trigger] cs[k].1) && cs[k].1.len()
        > 0 && cs[k].0 == gs[k].0 && (forall|i: int|
        0 <= i < cs[k].1.len() ==> (#[trigger] cs[k].1[i]).category_view() == cs[k].0) by {
        law_sort_by_name(gs[k].1);
        vstd::seq_lib::to_multiset_len(gs[k].1);
        vstd::seq_lib::to_multiset_len(cs[k].1);
        assert forall|i: int| 0 <= i < cs[k].1.len() implies (#[trigger] cs[k].1[i]).category_view()
            == cs[k].0 by {
            let y = cs[k].1[i];
            vstd::seq_lib::to_multiset_contains(cs[k].1, y);
            vstd::seq_lib::to_multiset_contains(gs[k].1, y);
            let j = choose|j: int| 0 <= j < gs[k].1.len() && gs[k].1[j] == y;
            assert(gs[k].1[j].category_view() == gs[k].0);
        }
    }
    assert forall|a: int, b: int| 0 <= a < b < cs.len() implies (#[trigger] cs[a]).0 != (
    #[trigger] cs[b]).0 by {
        assert(cs[a].0 == gs[a].0 && cs[b].0 == gs[b].0);
    }
}

} // verus!
