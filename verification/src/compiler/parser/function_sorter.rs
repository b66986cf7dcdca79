//! Numbers the functions of a program: functions written in LeBlanc keep their order,
//! functions linked from native code are numbered last.
use vstd::prelude::*;
use crate::compiler::parser::parse_structs::{FunctionType, IdentStore, ScopeSet, ScopeValue};

verus! {

/// The names of a program with, for each, its idents and their declarations, in the
/// order the names are walked.
pub type FunctionGroups = Vec<(String, Vec<(IdentStore, ScopeSet)>)>;

/// The first id of a declaration list, 0 for none.
pub open spec fn first_id_of(s: ScopeSet) -> usize {
    if s.values().len() > 0 {
        s.values()[0].id
    } else {
        0
    }
}

/// The functions of one name's idents, in order: their kind and their first id.
pub open spec fn group_items(g: Seq<(IdentStore, ScopeSet)>) -> Seq<(FunctionType, usize)>
    decreases g.len(),
{
    if g.len() == 0 {
        Seq::empty()
    } else {
        group_items(g.drop_last()) + match g.last().0 {
            IdentStore::Function(_, _, ft) => seq![(ft, first_id_of(g.last().1))],
            IdentStore::Variable(_) => Seq::empty(),
        }
    }
}

/// The functions of a program in walking order: their kind and their first id.
pub open spec fn flat_items(groups: Seq<(String, Vec<(IdentStore, ScopeSet)>)>) -> Seq<(FunctionType, usize)>
    decreases groups.len(),
{
    if groups.len() == 0 {
        Seq::empty()
    } else {
        flat_items(groups.drop_last()) + group_items(groups.last().1@)
    }
}

/// The largest first id, and 0 for none.
pub open spec fn max_id(items: Seq<(FunctionType, usize)>) -> int
    decreases items.len(),
{
    if items.len() == 0 {
        0
    } else {
        let m = max_id(items.drop_last());
        if items.last().1 > m {
            items.last().1 as int
        } else {
            m
        }
    }
}

/// The number of linked functions among the first `k`.
pub open spec fn linked_count(items: Seq<(FunctionType, usize)>, k: int) -> int
    decreases k,
{
    if k <= 0 {
        0
    } else {
        linked_count(items, k - 1) + if items[k - 1].0 == FunctionType::Linked {
            1int
        } else {
            0int
        }
    }
}

/// Renumbers the linked functions among the first `k`, the last one first: each takes
/// `next` and the following one `next - 1`; every LeBlanc function numbered above a
/// linked one moves down by one as it goes.
pub open spec fn renumber(items: Seq<(FunctionType, usize)>, cur: Seq<int>, k: int, next: int) -> Seq<int>
    decreases k,
{
    if k <= 0 {
        cur
    } else if items[k - 1].0 == FunctionType::LeBlanc {
        renumber(items, cur, k - 1, next)
    } else {
        let f = items[k - 1].1;
        let moved = Seq::new(
            cur.len(),
            |t: int|
                if items[t].0 == FunctionType::LeBlanc && cur[t] > f {
                    cur[t] - 1
                } else {
                    cur[t]
                },
        );
        renumber(items, moved.update(k - 1, next), k - 1, next - 1)
    }
}

/// The new first id of every function, in walking order.
pub open spec fn sorted_ids(items: Seq<(FunctionType, usize)>) -> Seq<int> {
    renumber(
        items,
        Seq::new(items.len(), |t: int| items[t].1 as int),
        items.len() as int,
        max_id(items),
    )
}


/// Every function has a declaration.
pub open spec fn functions_declared(groups: Seq<(String, Vec<(IdentStore, ScopeSet)>)>) -> bool {
    forall|a: int, b: int|
        0 <= a < groups.len() && 0 <= b < groups[a].1@.len() && (#[trigger] groups[a].1@[b]).0 is Function
            ==> groups[a].1@[b].1.values().len() > 0
}

/// The functions of a program in walking order.
fn collect_items(groups: &FunctionGroups) -> (r: Vec<(FunctionType, usize)>)
    ensures
        r@ == flat_items(groups@),
{
    let mut r: Vec<(FunctionType, usize)> = Vec::new();
    let mut a: usize = 0;
    while a < groups.len()
        invariant
            a <= groups.len(),
            r@ == flat_items(groups@.take(a as int)),
        decreases groups.len() - a,
    {
        let group = &groups[a].1;
        let ghost before = r@;
        let mut b: usize = 0;
        while b < group.len()
            invariant
                b <= group.len(),
                r@ == before + group_items(group@.take(b as int)),
            decreases group.len() - b,
        {
            let ghost prev = r@;
            match &group[b].0 {
                IdentStore::Function(_, _, ft) => {
                    let id = match group[b].1.get_first_id() {
                        Some(id) => id,
                        None => 0,
                    };
                    r.push((*ft, id));
                },
                IdentStore::Variable(_) => {},
            }
            proof {
                assert(group@.take(b + 1).drop_last() =~= group@.take(b as int));
                assert(group@.take(b + 1).last() == group@[b as int]);
                let gi = group_items(group@.take(b as int));
                assert(group_items(group@.take(b + 1)) == gi + match group@[b as int].0 {
                    IdentStore::Function(_, _, ft) => seq![(ft, first_id_of(group@[b as int].1))],
                    IdentStore::Variable(_) => Seq::empty(),
                });
                assert(r@ =~= before + group_items(group@.take(b + 1)));
            }
            b = b + 1;
        }
        proof {
            assert(group@.take(b as int) =~= group@);
            assert(groups@.take(a + 1).drop_last() =~= groups@.take(a as int));
            assert(groups@.take(a + 1).last() == groups@[a as int]);
        }
        a = a + 1;
    }
    assert(groups@.take(a as int) =~= groups@);
    r
}

/// The new first ids of the functions, in walking order.
fn renumber_ids(items: &Vec<(FunctionType, usize)>) -> (r: Vec<usize>)
    requires
        linked_count(items@, items@.len() as int) <= max_id(items@),
    ensures
        r@.len() == items@.len(),
        forall|k: int| 0 <= k < r@.len() ==> r@[k] as int == #[trigger] sorted_ids(items@)[k],
{
    let ghost s = items@;
    let n = items.len();
    let mut next: usize = 0;
    let mut i: usize = 0;
    let mut cur: Vec<usize> = Vec::new();
    while i < n
        invariant
            n == s.len(),
            s == items@,
            i <= n,
            cur@.len() == i,
            forall|t: int| 0 <= t < i ==> cur@[t] == s[t].1,
            next == max_id(s.take(i as int)),
        decreases n - i,
    {
        let id = items[i].1;
        proof {
            assert(s.take(i + 1).drop_last() =~= s.take(i as int));
        }
        if id > next {
            next = id;
        }
        cur.push(id);
        i = i + 1;
    }
    assert(s.take(n as int) =~= s);
    let ghost cur0 = Seq::new(n as nat, |t: int| s[t].1 as int);
    assert(cur@.map_values(|x: usize| x as int) =~= cur0);
    let mut k: usize = n;
    while k > 0
        invariant
            n == s.len(),
            s == items@,
            k <= n,
            cur@.len() == n,
            linked_count(s, n as int) <= max_id(s),
            next as int == max_id(s) - (linked_count(s, n as int) - linked_count(s, k as int)),
            renumber(s, cur0, n as int, max_id(s)) == renumber(
                s,
                cur@.map_values(|x: usize| x as int),
                k as int,
                next as int,
            ),
        decreases k,
    {
        let ghost c = cur@.map_values(|x: usize| x as int);
        proof {
            lemma_linked_count_bounds(s, k as int, n as int);
        }
        if items[k - 1].0 == FunctionType::Linked {
            let f = items[k - 1].1;
            let mut t: usize = 0;
            while t < n
                invariant
                    n == s.len(),
                    s == items@,
                    cur@.len() == n,
                    t <= n,
                    0 < k <= n,
                    f == s[k - 1].1,
                    forall|u: int| 0 <= u < t ==> (#[trigger] cur@[u]) as int == (if s[u].0 == FunctionType::LeBlanc && c[u] > f {
                        c[u] - 1
                    } else {
                        c[u]
                    }),
                    forall|u: int| t <= u < n ==> (#[trigger] cur@[u]) as int == c[u],
                decreases n - t,
            {
                if items[t].0 == FunctionType::LeBlanc && cur[t] > f {
                    let v = cur[t] - 1;
                    cur.set(t, v);
                }
                t = t + 1;
            }
            cur.set(k - 1, next);
            proof {
                let moved = Seq::new(
                    c.len(),
                    |u: int|
                        if s[u].0 == FunctionType::LeBlanc && c[u] > f {
                            c[u] - 1
                        } else {
                            c[u]
                        },
                );
                assert(cur@.map_values(|x: usize| x as int) =~= moved.update(k - 1, next as int));
            }
            next = next - 1;
        }
        k = k - 1;
    }
    assert forall|q: int| 0 <= q < cur@.len() implies cur@[q] as int == #[trigger] sorted_ids(s)[q] by {
        assert(cur@.map_values(|x: usize| x as int)[q] == cur@[q] as int);
    }
    cur
}

proof fn lemma_linked_count_bounds(s: Seq<(FunctionType, usize)>, k: int, n: int)
    requires
        0 <= k <= n <= s.len(),
    ensures
        0 <= linked_count(s, k) <= linked_count(s, n),
        0 < k ==> s[k - 1].0 == FunctionType::Linked ==> linked_count(s, k) >= 1,
    decreases n,
{
    if n > k {
        lemma_linked_count_bounds(s, k, n - 1);
    } else if k > 0 {
        lemma_linked_count_bounds(s, k - 1, k - 1);
    }
}


/// `new` is `old` with the first id of every function declaration changed only.
pub open spec fn same_but_first_ids(new: Seq<(String, Vec<(IdentStore, ScopeSet)>)>, old: Seq<(String, Vec<(IdentStore, ScopeSet)>)>) -> bool {
    &&& new.len() == old.len()
    &&& forall|a: int|
        0 <= a < old.len() ==> {
            &&& (#[trigger] new[a]).0@ == old[a].0@
            &&& new[a].1@.len() == old[a].1@.len()
            &&& forall|b: int|
                0 <= b < old[a].1@.len() ==> same_entry_but_first_id(#[trigger] new[a].1@[b], old[a].1@[b])
        }
}

/// The entry is the same, but a function's first declaration may have another id.
pub open spec fn same_entry_but_first_id(new: (IdentStore, ScopeSet), old: (IdentStore, ScopeSet)) -> bool {
    &&& new.0 == old.0
    &&& new.1.values().len() == old.1.values().len()
    &&& forall|i: int| 1 <= i < old.1.values().len() ==> new.1.values()[i] == old.1.values()[i]
    &&& old.1.values().len() > 0 ==> {
        &&& new.1.values()[0].scope == old.1.values()[0].scope
        &&& new.1.values()[0].arg_types@ == old.1.values()[0].arg_types@
        &&& new.1.values()[0].types@ == old.1.values()[0].types@
        &&& (old.0 is Variable ==> new.1.values()[0].id == old.1.values()[0].id)
    }
}

/// Numbers the functions of a program: the linked functions, from the last walked to the
/// first, take the largest id and the ones below it; every LeBlanc function numbered
/// above a linked one moves down by one for it, so that the LeBlanc functions keep
/// their order. The names are walked in the order of `type_map`.
pub fn sort_functions(type_map: &mut FunctionGroups)
    requires
        functions_declared(old(type_map)@),
        linked_count(flat_items(old(type_map)@), flat_items(old(type_map)@).len() as int) <= max_id(
            flat_items(old(type_map)@),
        ),
    ensures
        same_but_first_ids(final(type_map)@, old(type_map)@),
        flat_items(final(type_map)@).len() == flat_items(old(type_map)@).len(),
        forall|k: int|
            0 <= k < flat_items(old(type_map)@).len() ==> (#[trigger] flat_items(final(type_map)@)[k]).0
                == flat_items(old(type_map)@)[k].0 && flat_items(final(type_map)@)[k].1 as int
                == sorted_ids(flat_items(old(type_map)@))[k],
{
    let items = collect_items(type_map);
    let ids = renumber_ids(&items);
    write_ids(type_map, &ids, Ghost(items@));
}

proof fn lemma_group_len_mono(g: Seq<(IdentStore, ScopeSet)>, b: int)
    requires
        0 <= b <= g.len(),
    ensures
        group_items(g.take(b)).len() <= group_items(g).len(),
    decreases g.len() - b,
{
    if b < g.len() {
        assert(g.take(b + 1).drop_last() =~= g.take(b));
        lemma_group_len_mono(g, b + 1);
    } else {
        assert(g.take(b) =~= g);
    }
}

proof fn lemma_flat_len_mono(s: Seq<(String, Vec<(IdentStore, ScopeSet)>)>, a: int)
    requires
        0 <= a <= s.len(),
    ensures
        flat_items(s.take(a)).len() <= flat_items(s).len(),
    decreases s.len() - a,
{
    if a < s.len() {
        assert(s.take(a + 1).drop_last() =~= s.take(a));
        lemma_flat_len_mono(s, a + 1);
    } else {
        assert(s.take(a) =~= s);
    }
}

/// Writes new first ids into the function declarations of one name, from `ids[k]` on.
fn write_group(entries: &mut Vec<(IdentStore, ScopeSet)>, ids: &Vec<usize>, k: usize) -> (r: usize)
    requires
        forall|b: int|
            0 <= b < old(entries)@.len() && (#[trigger] old(entries)@[b]).0 is Function ==> old(
                entries,
            )@[b].1.values().len() > 0,
        k + group_items(old(entries)@).len() <= ids@.len(),
    ensures
        r == k + group_items(old(entries)@).len(),
        final(entries)@.len() == old(entries)@.len(),
        forall|b: int|
            0 <= b < old(entries)@.len() ==> same_entry_but_first_id(
                #[trigger] final(entries)@[b],
                old(entries)@[b],
            ),
        group_items(final(entries)@).len() == group_items(old(entries)@).len(),
        forall|j: int|
            0 <= j < group_items(old(entries)@).len() ==> (#[trigger] group_items(final(entries)@)[j]).0
                == group_items(old(entries)@)[j].0 && group_items(final(entries)@)[j].1 == ids@[k + j],
{
    let ghost ge = entries@;
    let mut b: usize = 0;
    let mut k2: usize = k;
    while b < entries.len()
        invariant
            ge == old(entries)@,
            entries@.len() == ge.len(),
            b <= ge.len(),
            forall|q: int|
                0 <= q < ge.len() && (#[trigger] ge[q]).0 is Function ==> ge[q].1.values().len() > 0,
            k + group_items(ge).len() <= ids@.len(),
            forall|q: int| b <= q < ge.len() ==> #[trigger] entries@[q] == ge[q],
            forall|q: int| 0 <= q < b ==> same_entry_but_first_id(#[trigger] entries@[q], ge[q]),
            k2 == k + group_items(ge.take(b as int)).len(),
            group_items(entries@.take(b as int)).len() == group_items(ge.take(b as int)).len(),
            forall|j: int|
                0 <= j < group_items(ge.take(b as int)).len() ==> (#[trigger] group_items(
                    entries@.take(b as int),
                )[j]).0 == group_items(ge.take(b as int))[j].0 && group_items(entries@.take(b as int))[j].1
                    == ids@[k + j],
        decreases ge.len() - b,
    {
        let ghost cur = entries@;
        proof {
            assert(ge.take(b + 1).drop_last() =~= ge.take(b as int));
            assert(ge.take(b + 1).last() == ge[b as int]);
            lemma_group_len_mono(ge, b + 1);
        }
        let is_function = match &entries[b].0 {
            IdentStore::Function(_, _, _) => true,
            IdentStore::Variable(_) => false,
        };
        if is_function {
            assert(group_items(ge.take(b + 1)).len() == group_items(ge.take(b as int)).len() + 1);
            assert(k2 < ids@.len());
            assert(k2 < ids.len());
            let mut e = entries.remove(b);
            e.1.set_first_id(ids[k2]);
            entries.insert(b, e);
            k2 = k2 + 1;
        }
        proof {
            assert(entries@.take(b + 1).drop_last() =~= cur.take(b as int));
            assert(cur.take(b as int) =~= entries@.take(b as int));
            assert(entries@.take(b + 1).last() == entries@[b as int]);
            assert forall|q: int| 0 <= q < b + 1 implies same_entry_but_first_id(#[trigger] entries@[q], ge[q]) by {
                if q < b {
                    assert(entries@[q] == cur[q]);
                }
            }
            let gn = group_items(entries@.take(b + 1));
            let go = group_items(ge.take(b + 1));
            assert forall|j: int| 0 <= j < go.len() implies (#[trigger] gn[j]).0 == go[j].0 && gn[j].1
                == ids@[k + j] by {
                if j < group_items(ge.take(b as int)).len() {
                    assert(gn[j] == group_items(entries@.take(b as int))[j]);
                    assert(go[j] == group_items(ge.take(b as int))[j]);
                }
            }
        }
        b = b + 1;
    }
    proof {
        assert(ge.take(b as int) =~= ge);
        assert(entries@.take(b as int) =~= entries@);
    }
    k2
}

/// Writes the new first ids back, in walking order.
fn write_ids(type_map: &mut FunctionGroups, ids: &Vec<usize>, items: Ghost<Seq<(FunctionType, usize)>>)
    requires
        functions_declared(old(type_map)@),
        items@ == flat_items(old(type_map)@),
        ids@.len() == items@.len(),
    ensures
        same_but_first_ids(final(type_map)@, old(type_map)@),
        flat_items(final(type_map)@).len() == items@.len(),
        forall|k: int|
            0 <= k < items@.len() ==> (#[trigger] flat_items(final(type_map)@)[k]).0 == items@[k].0
                && flat_items(final(type_map)@)[k].1 == ids@[k],
{
    let ghost old_map = type_map@;
    let mut a: usize = 0;
    let mut k: usize = 0;
    assert(type_map@.take(0) =~= Seq::<(String, Vec<(IdentStore, ScopeSet)>)>::empty());
    assert(old_map.take(0) =~= Seq::<(String, Vec<(IdentStore, ScopeSet)>)>::empty());
    while a < type_map.len()
        invariant
            type_map@.len() == old_map.len(),
            a <= type_map@.len(),
            old_map == old(type_map)@,
            functions_declared(old_map),
            items@ == flat_items(old_map),
            ids@.len() == items@.len(),
            k == flat_items(old_map.take(a as int)).len(),
            forall|q: int| a <= q < old_map.len() ==> #[trigger] type_map@[q] == old_map[q],
            same_but_first_ids(type_map@.take(a as int), old_map.take(a as int)),
            flat_items(type_map@.take(a as int)).len() == k,
            forall|q: int|
                0 <= q < k ==> (#[trigger] flat_items(type_map@.take(a as int))[q]).0 == flat_items(
                    old_map.take(a as int),
                )[q].0 && flat_items(type_map@.take(a as int))[q].1 == ids@[q],
        decreases old_map.len() - a,
    {
        let ghost cur = type_map@;
        proof {
            assert(old_map.take(a + 1).drop_last() =~= old_map.take(a as int));
            assert(old_map.take(a + 1).last() == old_map[a as int]);
            lemma_flat_len_mono(old_map, a + 1);
        }
        let (name, mut entries) = type_map.remove(a);
        let ghost ge = entries@;
        assert(ge == old_map[a as int].1@);
        let k2 = write_group(&mut entries, ids, k);
        let ghost gn = entries@;
        type_map.insert(a, (name, entries));
        proof {
            let nt = type_map@;
            assert(nt.take(a + 1).drop_last() =~= cur.take(a as int));
            assert(cur.take(a as int) =~= nt.take(a as int));
            assert(nt.take(a + 1).last() == nt[a as int]);
            assert(nt[a as int].1@ == gn);
            assert forall|q: int| a + 1 <= q < old_map.len() implies #[trigger] nt[q] == old_map[q] by {
                assert(nt[q] == cur[q]);
            }
            let t1 = nt.take(a + 1);
            let o1 = old_map.take(a + 1);
            assert(same_but_first_ids(t1, o1)) by {
                assert forall|x: int| 0 <= x < o1.len() implies {
                    &&& (#[trigger] t1[x]).0@ == o1[x].0@
                    &&& t1[x].1@.len() == o1[x].1@.len()
                    &&& forall|y: int|
                        0 <= y < o1[x].1@.len() ==> same_entry_but_first_id(#[trigger] t1[x].1@[y], o1[x].1@[y])
                } by {
                    if x < a {
                        assert(t1[x] == nt.take(a as int)[x]);
                        assert(o1[x] == old_map.take(a as int)[x]);
                    }
                }
            }
            let fn1 = flat_items(t1);
            let fo1 = flat_items(o1);
            assert forall|q: int| 0 <= q < k2 implies (#[trigger] fn1[q]).0 == fo1[q].0 && fn1[q].1 == ids@[q] by {
                if q < k {
                    assert(fn1[q] == flat_items(nt.take(a as int))[q]);
                    assert(fo1[q] == flat_items(old_map.take(a as int))[q]);
                } else {
                    assert(fn1[q] == group_items(gn)[q - k]);
                    assert(fo1[q] == group_items(ge)[q - k]);
                }
            }
        }
        k = k2;
        a = a + 1;
    }
    assert(type_map@.take(a as int) =~= type_map@);
    assert(old_map.take(a as int) =~= old_map);
}


proof fn lemma_renumber_monotone(items: Seq<(FunctionType, usize)>, cur: Seq<int>, k: int, next: int, t1: int, t2: int)
    requires
        cur.len() == items.len(),
        0 <= k <= items.len(),
        0 <= t1 < items.len(),
        0 <= t2 < items.len(),
        items[t1].0 == FunctionType::LeBlanc,
        items[t2].0 == FunctionType::LeBlanc,
        cur[t1] <= cur[t2],
    ensures
        renumber(items, cur, k, next).len() == items.len(),
        renumber(items, cur, k, next)[t1] <= renumber(items, cur, k, next)[t2],
    decreases k,
{
    if k > 0 {
        if items[k - 1].0 == FunctionType::LeBlanc {
            lemma_renumber_monotone(items, cur, k - 1, next, t1, t2);
        } else {
            let f = items[k - 1].1;
            let moved = Seq::new(
                cur.len(),
                |t: int|
                    if items[t].0 == FunctionType::LeBlanc && cur[t] > f {
                        cur[t] - 1
                    } else {
                        cur[t]
                    },
            );
            let m2 = moved.update(k - 1, next);
            assert(m2[t1] == moved[t1]);
            assert(m2[t2] == moved[t2]);
            lemma_renumber_monotone(items, m2, k - 1, next - 1, t1, t2);
        }
    }
}

/// Sorting keeps the order of the LeBlanc functions: one numbered no higher than another
/// before is numbered no higher after.
pub proof fn sorting_keeps_leblanc_order(items: Seq<(FunctionType, usize)>, t1: int, t2: int)
    requires
        0 <= t1 < items.len(),
        0 <= t2 < items.len(),
        items[t1].0 == FunctionType::LeBlanc,
        items[t2].0 == FunctionType::LeBlanc,
        items[t1].1 <= items[t2].1,
    ensures
        sorted_ids(items)[t1] <= sorted_ids(items)[t2],
{
    lemma_renumber_monotone(
        items,
        Seq::new(items.len(), |t: int| items[t].1 as int),
        items.len() as int,
        max_id(items),
        t1,
        t2,
    );
}


proof fn lemma_renumber_linked(items: Seq<(FunctionType, usize)>, cur: Seq<int>, k: int, next: int, i: int)
    requires
        cur.len() == items.len(),
        0 <= k <= items.len(),
        0 <= i < items.len(),
        items[i].0 == FunctionType::Linked,
    ensures
        renumber(items, cur, k, next)[i] == (if i < k {
            next - (linked_count(items, k) - linked_count(items, i + 1))
        } else {
            cur[i]
        }),
    decreases k,
{
    if k > 0 {
        if items[k - 1].0 == FunctionType::LeBlanc {
            lemma_renumber_linked(items, cur, k - 1, next, i);
        } else {
            let f = items[k - 1].1;
            let moved = Seq::new(
                cur.len(),
                |t: int|
                    if items[t].0 == FunctionType::LeBlanc && cur[t] > f {
                        cur[t] - 1
                    } else {
                        cur[t]
                    },
            );
            let m2 = moved.update(k - 1, next);
            lemma_renumber_linked(items, m2, k - 1, next - 1, i);
        }
    }
}

/// Sorting numbers the linked functions last: the last one walked takes the largest id,
/// and each one before it the id below the next one's.
pub proof fn linked_functions_take_the_top_ids(items: Seq<(FunctionType, usize)>, i: int)
    requires
        0 <= i < items.len(),
        items[i].0 == FunctionType::Linked,
    ensures
        sorted_ids(items)[i] == max_id(items) - (linked_count(items, items.len() as int)
            - linked_count(items, i + 1)),
{
    lemma_renumber_linked(
        items,
        Seq::new(items.len(), |t: int| items[t].1 as int),
        items.len() as int,
        max_id(items),
        i,
    );
}

} // verus!
