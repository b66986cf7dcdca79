//! The signatures of the functions a file declares or imports, filed by name and role.
use vstd::prelude::*;
use crate::compiler::identifier::typed_token::{
    PartialToken,
    RoleClass,
    copy_typing,
    nested_view,
    partial_key,
    same_partial,
};
use crate::native_types::LeBlancType;

verus! {

/// Two partial tokens are the same entry exactly when they are filed under the same key.
pub proof fn lemma_same_partial_key(a: (Seq<char>, crate::compiler::lang::leblanc_lang::CompileVocab), b: (Seq<char>, crate::compiler::lang::leblanc_lang::CompileVocab))
    ensures
        same_partial(a, b) <==> partial_key(a) == partial_key(b),
{
}

/// The map that a list of entries with distinct keys stands for.
pub open spec fn matcher_map(s: Seq<(PartialToken, Vec<Vec<LeBlancType>>)>) -> Map<
    (Seq<char>, RoleClass),
    Seq<Seq<LeBlancType>>,
>
    decreases s.len(),
{
    if s.len() == 0 {
        Map::empty()
    } else {
        matcher_map(s.drop_last()).insert(partial_key(s.last().0@), nested_view(s.last().1@))
    }
}

pub open spec fn distinct_keys(s: Seq<(PartialToken, Vec<Vec<LeBlancType>>)>) -> bool {
    forall|i: int, j: int| 0 <= i < j < s.len() ==> partial_key(s[i].0@) != partial_key(s[j].0@)
}

proof fn lemma_matcher_map(s: Seq<(PartialToken, Vec<Vec<LeBlancType>>)>, k: (Seq<char>, RoleClass))
    requires
        distinct_keys(s),
    ensures
        forall|i: int|
            0 <= i < s.len() && partial_key(s[i].0@) == k ==> matcher_map(s).contains_key(k)
                && matcher_map(s)[k] == nested_view(s[i].1@),
        (forall|i: int| 0 <= i < s.len() ==> partial_key(s[i].0@) != k) ==> !matcher_map(
            s,
        ).contains_key(k),
    decreases s.len(),
{
    if s.len() > 0 {
        lemma_matcher_map(s.drop_last(), k);
        assert forall|i: int| 0 <= i < s.len() - 1 implies s.drop_last()[i] == s[i] by {}
    }
}

proof fn lemma_update_matcher(
    s: Seq<(PartialToken, Vec<Vec<LeBlancType>>)>,
    i: int,
    e: (PartialToken, Vec<Vec<LeBlancType>>),
    k: (Seq<char>, RoleClass),
)
    requires
        distinct_keys(s),
        0 <= i < s.len(),
        partial_key(s[i].0@) == k,
        partial_key(e.0@) == k,
    ensures
        distinct_keys(s.update(i, e)),
        matcher_map(s.update(i, e)) == matcher_map(s).insert(k, nested_view(e.1@)),
{
    let t = s.update(i, e);
    assert(distinct_keys(t)) by {
        assert forall|a: int, b: int| 0 <= a < b < t.len() implies partial_key(t[a].0@)
            != partial_key(t[b].0@) by {
            assert(partial_key(t[a].0@) == partial_key(s[a].0@));
            assert(partial_key(t[b].0@) == partial_key(s[b].0@));
        }
    }
    let m1 = matcher_map(t);
    let m2 = matcher_map(s).insert(k, nested_view(e.1@));
    assert forall|q: (Seq<char>, RoleClass)| #[trigger] m1.contains_key(q) == m2.contains_key(q) && (
    m1.contains_key(q) ==> m1[q] == m2[q]) by {
        lemma_matcher_map(s, q);
        lemma_matcher_map(t, q);
        if q == k {
            assert(partial_key(t[i].0@) == q);
        } else {
            if matcher_map(s).contains_key(q) {
                let w = choose|w: int| 0 <= w < s.len() && partial_key(s[w].0@) == q;
                assert(t[w] == s[w]);
            }
            if m1.contains_key(q) {
                let w = choose|w: int| 0 <= w < t.len() && partial_key(t[w].0@) == q;
                assert(w != i);
                assert(t[w] == s[w]);
            }
        }
    }
    assert(m1 =~= m2);
}

/// The function matcher: signatures (argument types, then return types) keyed by the
/// name and role of a function.  A new signature for a key that is already filed
/// replaces the old one.
#[derive(Debug)]
pub struct FuncMatcher {
    entries: Vec<(PartialToken, Vec<Vec<LeBlancType>>)>,
}

impl View for FuncMatcher {
    type V = Map<(Seq<char>, RoleClass), Seq<Seq<LeBlancType>>>;

    closed spec fn view(&self) -> Self::V {
        matcher_map(self.entries@)
    }
}

impl FuncMatcher {
    pub closed spec fn wf(self) -> bool {
        distinct_keys(self.entries@)
    }

    pub fn new() -> (r: FuncMatcher)
        ensures
            r.wf(),
            r@ == Map::<(Seq<char>, RoleClass), Seq<Seq<LeBlancType>>>::empty(),
    {
        FuncMatcher { entries: Vec::new() }
    }

    fn find(&self, key: &PartialToken) -> (r: Option<usize>)
        requires
            self.wf(),
        ensures
            r matches Some(i) ==> i < self.entries@.len() && partial_key(self.entries@[i as int].0@)
                == partial_key(key@),
            r is None ==> forall|i: int|
                0 <= i < self.entries@.len() ==> partial_key(self.entries@[i].0@) != partial_key(
                    key@,
                ),
    {
        let mut i: usize = 0;
        while i < self.entries.len()
            invariant
                i <= self.entries@.len(),
                forall|j: int|
                    0 <= j < i ==> partial_key(self.entries@[j].0@) != partial_key(key@),
            decreases self.entries@.len() - i,
        {
            proof {
                lemma_same_partial_key(self.entries@[i as int].0@, key@);
            }
            if self.entries[i].0.same(key) {
                return Some(i);
            }
            i = i + 1;
        }
        None
    }

    pub fn contains_key(&self, key: &PartialToken) -> (r: bool)
        requires
            self.wf(),
        ensures
            r == self@.contains_key(partial_key(key@)),
    {
        proof {
            lemma_matcher_map(self.entries@, partial_key(key@));
        }
        self.find(key).is_some()
    }

    pub fn get(&self, key: &PartialToken) -> (r: Option<&Vec<Vec<LeBlancType>>>)
        requires
            self.wf(),
        ensures
            r matches Some(v) ==> self@.contains_key(partial_key(key@)) && nested_view(v@)
                == self@[partial_key(key@)],
            r is None ==> !self@.contains_key(partial_key(key@)),
    {
        proof {
            lemma_matcher_map(self.entries@, partial_key(key@));
        }
        match self.find(key) {
            Some(i) => Some(&self.entries[i].1),
            None => None,
        }
    }

    /// Files a signature under the key of `key`.
    pub fn insert(&mut self, key: PartialToken, value: Vec<Vec<LeBlancType>>)
        requires
            old(self).wf(),
        ensures
            final(self).wf(),
            final(self)@ == old(self)@.insert(partial_key(key@), nested_view(value@)),
    {
        let ghost old_entries = self.entries@;
        let ghost k = partial_key(key@);
        match self.find(&key) {
            Some(i) => {
                let ghost e = (key, value);
                self.entries.set(i, (key, value));
                proof {
                    lemma_update_matcher(old_entries, i as int, e, k);
                }
            },
            None => {
                self.entries.push((key, value));
                assert(self.entries@.drop_last() =~= old_entries);
                assert(distinct_keys(self.entries@)) by {
                    assert forall|a: int, b: int|
                        0 <= a < b < self.entries@.len() implies partial_key(self.entries@[a].0@)
                        != partial_key(self.entries@[b].0@) by {
                        assert(self.entries@[a] == old_entries[a]);
                        if b < old_entries.len() {
                            assert(self.entries@[b] == old_entries[b]);
                        }
                    }
                }
            },
        }
    }
}


/// A signature filed under one function token is found under every function token of the
/// same name, whatever its role: header, call or reference.
pub proof fn matcher_finds_every_role_of_a_function(
    m: Map<(Seq<char>, RoleClass), Seq<Seq<LeBlancType>>>,
    filed: (Seq<char>, crate::compiler::lang::leblanc_lang::CompileVocab),
    signature: Seq<Seq<LeBlancType>>,
    probe: (Seq<char>, crate::compiler::lang::leblanc_lang::CompileVocab),
)
    requires
        filed.1 is FUNCTION,
        probe.1 is FUNCTION,
        filed.0 == probe.0,
    ensures
        m.insert(partial_key(filed), signature).contains_key(partial_key(probe)),
        m.insert(partial_key(filed), signature)[partial_key(probe)] == signature,
{
}

} // verus!
