//! The roles a name has been given, per scope: for each name, one list of roles for each
//! scope number, the global scope first.
use vstd::prelude::*;
use crate::compiler::lang::leblanc_lang::CompileVocab;
use crate::text::str_eq;

verus! {

/// The contents of the scope lists of one name.
pub open spec fn scopes_view(v: Seq<Vec<CompileVocab>>) -> Seq<Seq<CompileVocab>> {
    v.map_values(|t: Vec<CompileVocab>| t@)
}

/// The map that a list of entries with distinct names stands for.
pub open spec fn entries_map(s: Seq<(String, Vec<Vec<CompileVocab>>)>) -> Map<
    Seq<char>,
    Seq<Seq<CompileVocab>>,
>
    decreases s.len(),
{
    if s.len() == 0 {
        Map::empty()
    } else {
        entries_map(s.drop_last()).insert(s.last().0@, scopes_view(s.last().1@))
    }
}

/// No name has two entries.
pub open spec fn distinct_names(s: Seq<(String, Vec<Vec<CompileVocab>>)>) -> bool {
    forall|i: int, j: int| 0 <= i < j < s.len() ==> s[i].0@ != s[j].0@
}

proof fn lemma_entries_map(s: Seq<(String, Vec<Vec<CompileVocab>>)>, k: Seq<char>)
    requires
        distinct_names(s),
    ensures
        forall|i: int|
            0 <= i < s.len() && s[i].0@ == k ==> entries_map(s).contains_key(k) && entries_map(
                s,
            )[k] == scopes_view(s[i].1@),
        (forall|i: int| 0 <= i < s.len() ==> s[i].0@ != k) ==> !entries_map(s).contains_key(k),
    decreases s.len(),
{
    if s.len() > 0 {
        lemma_entries_map(s.drop_last(), k);
        assert forall|i: int| 0 <= i < s.len() - 1 implies s.drop_last()[i] == s[i] by {}
    }
}

/// A map from names to their scope lists, kept as a list of entries with distinct names.
#[derive(Debug)]
pub struct TypeMap {
    entries: Vec<(String, Vec<Vec<CompileVocab>>)>,
}

impl View for TypeMap {
    type V = Map<Seq<char>, Seq<Seq<CompileVocab>>>;

    closed spec fn view(&self) -> Self::V {
        entries_map(self.entries@)
    }
}

impl TypeMap {
    /// The entries name distinct names.
    pub closed spec fn wf(self) -> bool {
        distinct_names(self.entries@)
    }

    pub fn new() -> (r: TypeMap)
        ensures
            r.wf(),
            r@ == Map::<Seq<char>, Seq<Seq<CompileVocab>>>::empty(),
    {
        TypeMap { entries: Vec::new() }
    }

    fn find(&self, name: &str) -> (r: Option<usize>)
        requires
            self.wf(),
        ensures
            r matches Some(i) ==> i < self.entries@.len() && self.entries@[i as int].0@ == name@,
            r is None ==> forall|i: int|
                0 <= i < self.entries@.len() ==> self.entries@[i].0@ != name@,
    {
        let mut i: usize = 0;
        while i < self.entries.len()
            invariant
                i <= self.entries@.len(),
                forall|j: int| 0 <= j < i ==> self.entries@[j].0@ != name@,
            decreases self.entries@.len() - i,
        {
            if str_eq(self.entries[i].0.as_str(), name) {
                return Some(i);
            }
            i = i + 1;
        }
        None
    }

    /// The scope lists of `name`, if it has any.
    pub fn get(&self, name: &str) -> (r: Option<&Vec<Vec<CompileVocab>>>)
        requires
            self.wf(),
        ensures
            r matches Some(v) ==> self@.contains_key(name@) && scopes_view(v@) == self@[name@],
            r is None ==> !self@.contains_key(name@),
    {
        proof {
            lemma_entries_map(self.entries@, name@);
        }
        match self.find(name) {
            Some(i) => Some(&self.entries[i].1),
            None => None,
        }
    }

    pub fn contains_key(&self, name: &str) -> (r: bool)
        requires
            self.wf(),
        ensures
            r == self@.contains_key(name@),
    {
        proof {
            lemma_entries_map(self.entries@, name@);
        }
        self.find(name).is_some()
    }

    /// Sets the scope lists of `name`.
    pub fn insert(&mut self, name: String, scopes: Vec<Vec<CompileVocab>>)
        requires
            old(self).wf(),
        ensures
            final(self).wf(),
            final(self)@ == old(self)@.insert(name@, scopes_view(scopes@)),
    {
        let ghost old_entries = self.entries@;
        let ghost k = name@;
        let ghost sv = scopes_view(scopes@);
        match self.find(name.as_str()) {
            Some(i) => {
                self.entries.set(i, (name, scopes));
                proof {
                    lemma_update_entry(old_entries, i as int, self.entries@[i as int]);
                }
            },
            None => {
                self.entries.push((name, scopes));
                assert(self.entries@.drop_last() =~= old_entries);
                assert(distinct_names(self.entries@)) by {
                    assert forall|a: int, b: int|
                        0 <= a < b < self.entries@.len() implies self.entries@[a].0@
                        != self.entries@[b].0@ by {
                        if b < old_entries.len() {
                            assert(self.entries@[a] == old_entries[a]);
                            assert(self.entries@[b] == old_entries[b]);
                        } else {
                            assert(self.entries@[a] == old_entries[a]);
                        }
                    }
                }
            },
        }
    }
}

/// Replacing the entry of a name replaces its scope lists in the map.
proof fn lemma_update_entry(
    s: Seq<(String, Vec<Vec<CompileVocab>>)>,
    i: int,
    e: (String, Vec<Vec<CompileVocab>>),
)
    requires
        distinct_names(s),
        0 <= i < s.len(),
        s[i].0@ == e.0@,
    ensures
        distinct_names(s.update(i, e)),
        entries_map(s.update(i, e)) == entries_map(s).insert(e.0@, scopes_view(e.1@)),
{
    let t = s.update(i, e);
    assert(distinct_names(t)) by {
        assert forall|a: int, b: int| 0 <= a < b < t.len() implies t[a].0@ != t[b].0@ by {
            assert(t[a].0@ == s[a].0@);
            assert(t[b].0@ == s[b].0@);
        }
    }
    let m1 = entries_map(t);
    let m2 = entries_map(s).insert(e.0@, scopes_view(e.1@));
    assert forall|q: Seq<char>| #[trigger] m1.contains_key(q) == m2.contains_key(q) && (m1.contains_key(q) ==> m1[q] == m2[q]) by {
        lemma_entries_map(s, q);
        lemma_entries_map(t, q);
        if q == e.0@ {
            assert(t[i].0@ == q);
        } else {
            if entries_map(s).contains_key(q) {
                let w = choose|w: int| 0 <= w < s.len() && s[w].0@ == q;
                assert(t[w] == s[w]);
            }
            if m1.contains_key(q) {
                let w = choose|w: int| 0 <= w < t.len() && t[w].0@ == q;
                assert(w != i);
                assert(t[w] == s[w]);
            }
        }
    }
    assert(m1 =~= m2);
}

} // verus!
