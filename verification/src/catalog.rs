//! Catalogs of named, categorised entries (examples, templates): sorting by
//! name and grouping by category.

use vstd::prelude::*;
use crate::text::eq_str;

verus! {

/// Whether `a` comes before `b` in lexicographic order of characters (the
/// order of `String`, since UTF-8 keeps the order of code points).
pub open spec fn lex_lt(a: Seq<char>, b: Seq<char>) -> bool
    decreases a.len(),
{
    if a.len() == 0 {
        b.len() > 0
    } else if b.len() == 0 {
        false
    } else if (a[0] as u32) < (b[0] as u32) {
        true
    } else if a[0] == b[0] {
        lex_lt(a.drop_first(), b.drop_first())
    } else {
        false
    }
}

/// An entry with a name.
pub trait Named {
    spec fn name_view(&self) -> Seq<char>;

    fn name(&self) -> (r: &String)
        ensures
            r@ == self.name_view(),
    ;
}

/// An entry with a category.
pub trait Categorized {
    spec fn category_view(&self) -> Seq<char>;

    fn category(&self) -> (r: &String)
        ensures
            r@ == self.category_view(),
    ;
}

/// Where `x` goes in `s` when inserted after every entry whose name is not
/// after its own: before the first entry whose name comes after it.
pub open spec fn insert_pos<T: Named>(s: Seq<T>, x: T) -> nat
    decreases s.len(),
{
    if s.len() == 0 {
        0
    } else if lex_lt(x.name_view(), s[0].name_view()) {
        0
    } else {
        1 + insert_pos(s.drop_first(), x)
    }
}

/// `s` sorted by name, entries with equal names in the order they came
/// (what a stable sort by name, `sort_by(|a, b| a.name.cmp(&b.name))`, gives).
pub open spec fn stable_sorted<T: Named>(s: Seq<T>) -> Seq<T>
    decreases s.len(),
{
    if s.len() == 0 {
        s
    } else {
        let r = stable_sorted(s.drop_last());
        r.insert(insert_pos(r, s.last()) as int, s.last())
    }
}

/// Whether `a` comes before `b`.
pub fn str_lt(a: &str, b: &str) -> (r: bool)
    ensures
        r == lex_lt(a@, b@),
{
    let x = crate::text::chars_of(a);
    let y = crate::text::chars_of(b);
    let mut i: usize = 0;
    assert(x@.skip(0) =~= x@);
    assert(y@.skip(0) =~= y@);
    while i < x.len() && i < y.len() && x[i] == y[i]
        invariant
            i <= x.len(),
            i <= y.len(),
            x@ == a@,
            y@ == b@,
            lex_lt(a@, b@) == lex_lt(x@.skip(i as int), y@.skip(i as int)),
        decreases x.len() - i,
    {
        assert(x@.skip(i as int).drop_first() =~= x@.skip(i + 1));
        assert(y@.skip(i as int).drop_first() =~= y@.skip(i + 1));
        i += 1;
    }
    if i == x.len() {
        i < y.len()
    } else if i == y.len() {
        false
    } else {
        assert(x@.skip(i as int)[0] == x@[i as int]);
        assert(y@.skip(i as int)[0] == y@[i as int]);
        (x[i] as u32) < (y[i] as u32)
    }
}

proof fn lemma_insert_pos_bound<T: Named>(s: Seq<T>, x: T)
    ensures
        insert_pos(s, x) <= s.len(),
    decreases s.len(),
{
    if s.len() > 0 && !lex_lt(x.name_view(), s[0].name_view()) {
        lemma_insert_pos_bound(s.drop_first(), x);
    }
}

proof fn lemma_stable_sorted_len<T: Named>(s: Seq<T>)
    ensures
        stable_sorted(s).len() == s.len(),
    decreases s.len(),
{
    if s.len() > 0 {
        lemma_stable_sorted_len(s.drop_last());
        lemma_insert_pos_bound(stable_sorted(s.drop_last()), s.last());
    }
}

/// Sorts `v` by name, keeping entries with equal names in their order.
pub fn sort_by_name<T: Named>(v: &mut Vec<T>)
    ensures
        final(v)@ == stable_sorted(old(v)@),
{
    let ghost orig = v@;
    let n = v.len();
    let mut i: usize = 0;
    assert(orig.take(0) =~= Seq::<T>::empty());
    while i < n
        invariant
            n == v.len() == orig.len(),
            i <= n,
            v@.take(i as int) == stable_sorted(orig.take(i as int)),
            v@.skip(i as int) == orig.skip(i as int),
        decreases n - i,
    {
        let ghost sorted = v@.take(i as int);
        let ghost x = orig[i as int];
        assert(v@[i as int] == v@.skip(i as int)[0]);
        assert(v@[i as int] == x);
        let mut j: usize = 0;
        assert(sorted.skip(0) =~= sorted);
        while j < i && !str_lt(v[i].name().as_str(), v[j].name().as_str())
            invariant
                j <= i < n == v.len(),
                sorted == v@.take(i as int),
                v@[i as int] == x,
                insert_pos(sorted, x) == j + insert_pos(sorted.skip(j as int), x),
            decreases i - j,
        {
            assert(sorted.skip(j as int).drop_first() =~= sorted.skip(j + 1));
            assert(sorted.skip(j as int)[0] == v@[j as int]);
            j += 1;
        }
        proof {
            if j < i {
                assert(sorted.skip(j as int)[0] == v@[j as int]);
            }
        }
        assert(insert_pos(sorted, x) == j);
        let ghost before = v@;
        let item = v.remove(i);
        v.insert(j, item);
        proof {
            assert(orig.take(i + 1).drop_last() =~= orig.take(i as int));
            assert(orig.take(i + 1).last() == x);
            lemma_stable_sorted_len(orig.take(i as int));
            assert(v@.take(i + 1) =~= sorted.insert(j as int, x));
            assert(v@.skip(i + 1) =~= before.skip(i + 1));
            assert(before.skip(i + 1) =~= orig.skip(i + 1)) by {
                assert(before.skip(i as int).drop_first() =~= before.skip(i + 1));
                assert(orig.skip(i as int).drop_first() =~= orig.skip(i + 1));
            }
        }
        i += 1;
    }
    assert(v@.take(n as int) =~= v@);
    assert(orig.take(n as int) =~= orig);
}

/// The index of the first group at or after `i` whose category is `c`.
pub open spec fn find_group<T>(gs: Seq<(Seq<char>, Seq<T>)>, c: Seq<char>, i: nat) -> Option<nat>
    decreases gs.len() - i,
{
    if i >= gs.len() {
        None
    } else if gs[i as int].0 == c {
        Some(i)
    } else {
        find_group(gs, c, i + 1)
    }
}

/// The groups `gs` with `x` added at the end of the group of its category,
/// or in a new last group.
pub open spec fn add_to_groups<T: Categorized>(gs: Seq<(Seq<char>, Seq<T>)>, x: T) -> Seq<
    (Seq<char>, Seq<T>),
> {
    match find_group(gs, x.category_view(), 0) {
        Some(k) => gs.update(k as int, (gs[k as int].0, gs[k as int].1.push(x))),
        None => gs.push((x.category_view(), seq![x])),
    }
}

/// The entries grouped by category, groups in the order their first entry
/// comes, entries of a group in their order.
pub open spec fn grouped<T: Categorized>(items: Seq<T>) -> Seq<(Seq<char>, Seq<T>)>
    decreases items.len(),
{
    if items.len() == 0 {
        seq![]
    } else {
        add_to_groups(grouped(items.drop_last()), items.last())
    }
}

/// The entries grouped by category, each group sorted by name.
pub open spec fn categorized<T: Named + Categorized>(items: Seq<T>) -> Seq<(Seq<char>, Seq<T>)> {
    grouped(items).map_values(|g: (Seq<char>, Seq<T>)| (g.0, stable_sorted(g.1)))
}

/// The groups as plain values.
pub open spec fn group_views<T>(r: Seq<(String, Vec<T>)>) -> Seq<(Seq<char>, Seq<T>)> {
    r.map_values(|g: (String, Vec<T>)| (g.0@, g.1@))
}

pub proof fn lemma_find_group_spec<T>(gs: Seq<(Seq<char>, Seq<T>)>, c: Seq<char>, i: nat)
    ensures
        match find_group(gs, c, i) {
            Some(k) => i <= k < gs.len() && gs[k as int].0 == c,
            None => forall|j: int| i <= j < gs.len() ==> gs[j].0 != c,
        },
    decreases gs.len() - i,
{
    if i < gs.len() && gs[i as int].0 != c {
        lemma_find_group_spec(gs, c, i + 1);
    }
}

/// Groups the entries by category (groups in the order of their first
/// entry), each group sorted by name.
pub fn group_by_category<T: Named + Categorized>(items: Vec<T>) -> (r: Vec<(String, Vec<T>)>)
    ensures
        group_views(r@) == categorized(items@),
{
    let ghost orig = items@;
    let mut items = items;
    let mut groups: Vec<(String, Vec<T>)> = Vec::new();
    let ghost mut done: nat = 0;
    assert(orig.skip(0) =~= orig);
    assert(group_views(groups@) =~= grouped(orig.take(0)));
    while items.len() > 0
        invariant
            done <= orig.len(),
            items@ == orig.skip(done as int),
            group_views(groups@) == grouped(orig.take(done as int)),
        decreases items.len(),
    {
        let x = items.remove(0);
        let ghost gv = group_views(groups@);
        proof {
            assert(orig.skip(done as int)[0] == x);
            assert(orig.take(done + 1int).drop_last() =~= orig.take(done as int));
            assert(orig.take(done + 1int).last() == x);
            assert(items@ =~= orig.skip(done + 1int));
            lemma_find_group_spec(gv, x.category_view(), 0);
        }
        let mut k: usize = 0;
        while k < groups.len() && !eq_str(groups[k].0.as_str(), x.category().as_str())
            invariant
                k <= groups.len(),
                gv == group_views(groups@),
                find_group(gv, x.category_view(), 0) == find_group(gv, x.category_view(), k as nat),
            decreases groups.len() - k,
        {
            k += 1;
        }
        if k < groups.len() {
            let (cat, mut members) = groups.remove(k);
            members.push(x);
            groups.insert(k, (cat, members));
            assert(group_views(groups@) =~= add_to_groups(gv, x));
        } else {
            let cat = x.category().clone();
            let mut members: Vec<T> = Vec::new();
            members.push(x);
            groups.push((cat, members));
            assert(members@ =~= seq![x]);
            assert(group_views(groups@) =~= add_to_groups(gv, x));
        }
        proof {
            done = done + 1;
        }
    }
    assert(orig.take(done as int) =~= orig);
    let ghost gv = group_views(groups@);
    let n = groups.len();
    let mut k: usize = 0;
    while k < n
        invariant
            n == groups.len() == gv.len(),
            k <= n,
            gv == grouped(orig),
            forall|j: int| 0 <= j < k ==> #[trigger] group_views(groups@)[j] == (gv[j].0, stable_sorted(gv[j].1)),
            forall|j: int| k <= j < n ==> #[trigger] group_views(groups@)[j] == gv[j],
        decreases n - k,
    {
        let ghost raw = groups@;
        assert(group_views(raw)[k as int] == gv[k as int]);
        assert(group_views(raw)[k as int] == (raw[k as int].0@, raw[k as int].1@));
        let (cat, mut members) = groups.remove(k);
        let ghost m0 = members@;
        assert(m0 == raw[k as int].1@);
        sort_by_name(&mut members);
        groups.insert(k, (cat, members));
        proof {
            assert(groups@ =~= raw.update(k as int, groups@[k as int]));
            assert(group_views(groups@)[k as int] == (gv[k as int].0, stable_sorted(gv[k as int].1)));
            assert forall|j: int| 0 <= j < n && j != k implies #[trigger] group_views(groups@)[j]
                == group_views(raw)[j] by {}
        }
        k += 1;
    }
    assert(group_views(groups@) =~= categorized(orig));
    groups
}

} // verus!
