//! Scopes and the declarations recorded in them.
use vstd::prelude::*;
use crate::native_types::LeBlancType;

verus! {

#[derive(Debug, Clone, Copy, PartialEq, Eq, Structural)]
pub struct SyntaxError {}

/// A declaration: the scope it was made in, its argument and value types, and its number.
#[derive(Debug, Hash)]
pub struct ScopeValue {
    pub scope: ScopeType,
    pub arg_types: Vec<LeBlancType>,
    pub types: Vec<LeBlancType>,
    pub id: usize,
}

/// A declaration as a value: its scope, its argument and value types, and its number.
pub struct DeclView {
    pub scope: ScopeType,
    pub arg_types: Seq<LeBlancType>,
    pub types: Seq<LeBlancType>,
    pub id: usize,
}

impl View for ScopeValue {
    type V = DeclView;

    open spec fn view(&self) -> DeclView {
        DeclView { scope: self.scope, arg_types: self.arg_types@, types: self.types@, id: self.id }
    }
}

/// Whether a declaration in scope `t` clashes with one of `ds`: one made in `t` or in a
/// scope enclosing it.
pub open spec fn clashes(ds: Seq<DeclView>, t: ScopeType) -> bool
    decreases t,
{
    (exists|j: int| 0 <= j < ds.len() && (#[trigger] ds[j]).scope == t) || match t {
        ScopeType::Local(_, p) => clashes(ds, *p),
        _ => false,
    }
}

/// A scope: the global scope, a class body, or a local scope numbered within its
/// enclosing scope.
#[derive(Debug, Hash)]
pub enum ScopeType {
    Global,
    Class,
    Local(u64, Box<ScopeType>),
}

/// Structural equality of scopes.
fn scope_type_eq(a: &ScopeType, b: &ScopeType) -> (r: bool)
    ensures
        r == (*a == *b),
    decreases *a,
{
    match (a, b) {
        (ScopeType::Global, ScopeType::Global) => true,
        (ScopeType::Class, ScopeType::Class) => true,
        (ScopeType::Local(n, p), ScopeType::Local(m, q)) => *n == *m && scope_type_eq(&**p, &**q),
        _ => false,
    }
}

impl PartialEq for ScopeType {
    fn eq(&self, other: &Self) -> (r: bool) {
        scope_type_eq(self, other)
    }
}

impl vstd::std_specs::cmp::PartialEqSpecImpl for ScopeType {
    open spec fn obeys_eq_spec() -> bool {
        true
    }

    open spec fn eq_spec(&self, other: &Self) -> bool {
        *self == *other
    }
}

impl Eq for ScopeType {

}

impl Clone for ScopeType {
    fn clone(&self) -> (r: Self)
        ensures
            r == *self,
        decreases self,
    {
        match self {
            ScopeType::Global => ScopeType::Global,
            ScopeType::Class => ScopeType::Class,
            ScopeType::Local(n, p) => ScopeType::Local(*n, Box::new((**p).clone())),
        }
    }
}

/// The enclosing scope of a local scope.
pub open spec fn spec_parent(t: ScopeType) -> Option<ScopeType> {
    match t {
        ScopeType::Local(_, p) => Some(*p),
        _ => None,
    }
}

impl ScopeType {
    pub fn get_parent(&self) -> (r: Option<Box<ScopeType>>)
        ensures
            r == (match spec_parent(*self) {
                Some(p) => Some(Box::new(p)),
                None => None,
            }),
    {
        if let ScopeType::Local(_v, p) = self {
            return Some(Box::new((**p).clone()));
        }
        return None;
    }
}

/// The index of the first declaration made in scope `t`.
pub open spec fn first_in_scope(s: Seq<ScopeValue>, t: ScopeType) -> Option<int>
    decreases s.len(),
{
    if s.len() == 0 {
        None
    } else if s[0].scope == t {
        Some(0)
    } else {
        match first_in_scope(s.drop_first(), t) {
            Some(i) => Some(i + 1),
            None => None,
        }
    }
}

/// The index of the declaration that a name used in scope `t` refers to: the first one
/// made in `t`, or else in its enclosing scope, and so on outwards.
pub open spec fn visible_from(s: Seq<ScopeValue>, t: ScopeType) -> Option<int>
    decreases t,
{
    match first_in_scope(s, t) {
        Some(i) => Some(i),
        None => match t {
            ScopeType::Local(_, p) => visible_from(s, *p),
            _ => None,
        },
    }
}

proof fn lemma_first_in_scope(s: Seq<ScopeValue>, t: ScopeType)
    ensures
        first_in_scope(s, t) matches Some(i) ==> 0 <= i < s.len() && s[i].scope == t && forall|
            j: int,
        | 0 <= j < i ==> s[j].scope != t,
        first_in_scope(s, t) is None ==> forall|j: int| 0 <= j < s.len() ==> s[j].scope != t,
    decreases s.len(),
{
    if s.len() > 0 {
        lemma_first_in_scope(s.drop_first(), t);
        if s[0].scope != t {
            assert forall|j: int| 1 <= j < s.len() implies s[j] == s.drop_first()[j - 1] by {}
        }
    }
}

proof fn lemma_visible_from(s: Seq<ScopeValue>, t: ScopeType)
    ensures
        visible_from(s, t) matches Some(i) ==> 0 <= i < s.len(),
    decreases t,
{
    lemma_first_in_scope(s, t);
    if let ScopeType::Local(_, p) = t {
        lemma_visible_from(s, *p);
    }
}

/// A declaration is visible from `t` exactly when a new one in `t` would clash.
pub proof fn lemma_visible_iff_clashes(s: Seq<ScopeValue>, t: ScopeType)
    ensures
        (visible_from(s, t) is Some) == clashes(s.map_values(|v: ScopeValue| v@), t),
    decreases t,
{
    let ds = s.map_values(|v: ScopeValue| v@);
    lemma_first_in_scope(s, t);
    if first_in_scope(s, t) is Some {
        let i = first_in_scope(s, t)->0;
        assert(ds[i].scope == t);
    } else {
        assert forall|j: int| 0 <= j < ds.len() implies (#[trigger] ds[j]).scope != t by {
            assert(s[j].scope != t);
        }
        if let ScopeType::Local(_, p) = t {
            lemma_visible_iff_clashes(s, *p);
        }
    }
}

/// The declarations of one name, in the order they were made.
#[derive(Debug)]
pub struct ScopeSet {
    inner_map: Vec<ScopeValue>,
}

impl ScopeSet {
    pub closed spec fn values(self) -> Seq<ScopeValue> {
        self.inner_map@
    }

    /// The declarations as values, in the order they were made.
    pub open spec fn decls(self) -> Seq<DeclView> {
        self.values().map_values(|v: ScopeValue| v@)
    }

    pub fn new() -> (r: Self)
        ensures
            r.values() == Seq::<ScopeValue>::empty(),
    {
        ScopeSet { inner_map: Vec::new() }
    }

    /// Finds the first declaration made in scope `s`, with a fresh copy of its type lists.
    fn find_in_scope(&self, s: &ScopeType) -> (r: Option<usize>)
        ensures
            r matches Some(i) ==> first_in_scope(self.values(), *s) == Some(i as int) && i
                < self.values().len(),
            r is None ==> first_in_scope(self.values(), *s) is None,
    {
        proof {
            lemma_first_in_scope(self.values(), *s);
        }
        let mut i: usize = 0;
        while i < self.inner_map.len()
            invariant
                i <= self.inner_map@.len(),
                forall|j: int| 0 <= j < i ==> self.inner_map@[j].scope != *s,
                first_in_scope(self.values(), *s) matches Some(k) ==> k >= i && k < self.values().len()
                    && self.values()[k].scope == *s && forall|j: int|
                    0 <= j < k ==> self.values()[j].scope != *s,
                first_in_scope(self.values(), *s) is None ==> forall|j: int|
                    0 <= j < self.values().len() ==> self.values()[j].scope != *s,
            decreases self.inner_map@.len() - i,
        {
            if self.inner_map[i].scope == *s {
                return Some(i);
            }
            i = i + 1;
        }
        None
    }

    /// The first declaration made exactly in scope `s`; one must exist.
    pub fn get_matching_scope_value(&self, s: ScopeType) -> (r: ScopeValue)
        requires
            first_in_scope(self.values(), s) is Some,
        ensures
            ({
                let v = self.values()[first_in_scope(self.values(), s)->0];
                &&& r.scope == v.scope
                &&& r.arg_types@ == v.arg_types@
                &&& r.types@ == v.types@
                &&& r.id == v.id
            }),
    {
        let i = self.find_in_scope(&s).unwrap();
        let v = &self.inner_map[i];
        ScopeValue {
            scope: v.scope.clone(),
            arg_types: crate::compiler::identifier::typed_token::copy_types(&v.arg_types),
            types: crate::compiler::identifier::typed_token::copy_types(&v.types),
            id: v.id,
        }
    }

    /// The declaration visible from scope `value`: made in it or in an enclosing scope,
    /// the innermost such scope first.
    pub fn get_any_scope_value(&self, value: &ScopeType) -> (r: Option<&ScopeValue>)
        ensures
            r matches Some(v) ==> visible_from(self.values(), *value) matches Some(i) && *v
                == self.values()[i],
            r is None ==> visible_from(self.values(), *value) is None,
        decreases *value,
    {
        proof {
            lemma_visible_from(self.values(), *value);
        }
        match self.find_in_scope(value) {
            Some(i) => return Some(&self.inner_map[i]),
            None => {},
        }
        match value {
            ScopeType::Local(_, p) => self.get_any_scope_value(&**p),
            _ => None,
        }
    }

    pub fn get_first_id(&self) -> (r: Option<usize>)
        ensures
            self.values().len() == 0 ==> r is None,
            self.values().len() > 0 ==> r == Some(self.values()[0].id),
    {
        if self.inner_map.is_empty() {
            return None;
        }
        Some(self.inner_map[0].id)
    }

    /// Renumbers the first declaration; there must be one.
    pub fn set_first_id(&mut self, id: usize)
        requires
            old(self).values().len() > 0,
        ensures
            final(self).values().len() == old(self).values().len(),
            final(self).values()[0].id == id,
            final(self).values()[0].scope == old(self).values()[0].scope,
            final(self).values()[0].arg_types@ == old(self).values()[0].arg_types@,
            final(self).values()[0].types@ == old(self).values()[0].types@,
            forall|i: int|
                1 <= i < old(self).values().len() ==> final(self).values()[i] == old(
                    self,
                ).values()[i],
    {
        let mut first = self.inner_map.remove(0);
        first.id = id;
        self.inner_map.insert(0, first);
    }

    /// The declarations, in the order they were made.
    pub fn iter(&self) -> (r: &Vec<ScopeValue>)
        ensures
            r@ == self.values(),
    {
        &self.inner_map
    }

    pub fn insert(&mut self, value: ScopeValue)
        ensures
            final(self).values() == old(self).values().push(value),
    {
        self.inner_map.push(value);
    }

    /// Whether a declaration in `value`'s scope would clash with one already visible
    /// there: one made in that scope or in a scope enclosing it.
    pub fn invalid_in_scope(&mut self, value: &ScopeValue) -> (r: bool)
        ensures
            r == visible_from(old(self).values(), value.scope) is Some,
            final(self).values() == old(self).values(),
    {
        self.get_any_scope_value(&value.scope).is_some()
    }
}

/// The scope the declarations of a function body are currently made in, and how many
/// local scopes have been opened inside it.
#[derive(Debug)]
pub struct ScopeTrack {
    pub scope_occurrence: u64,
    scope: ScopeType,
}

impl ScopeTrack {
    pub closed spec fn spec_scope(self) -> ScopeType {
        self.scope
    }

    pub closed spec fn occurrence(self) -> u64 {
        self.scope_occurrence
    }

    /// The global scope, with no local scope opened yet.
    pub fn default() -> (r: ScopeTrack)
        ensures
            r.occurrence() == 0,
            r.spec_scope() == ScopeType::Global,
    {
        ScopeTrack { scope_occurrence: 0, scope: ScopeType::Global }
    }

    pub fn get_scope_type(&self) -> (r: ScopeType)
        ensures
            r == self.spec_scope(),
    {
        self.scope.clone()
    }

    /// Opens the next local scope: the result is a tracker for a scope numbered by the
    /// count of scopes opened so far inside the current one, and the count goes up.
    pub fn bump(&mut self) -> (r: ScopeTrack)
        requires
            old(self).occurrence() < u64::MAX,
        ensures
            r.occurrence() == old(self).occurrence(),
            r.spec_scope() == ScopeType::Local(
                old(self).occurrence(),
                Box::new(old(self).spec_scope()),
            ),
            final(self).occurrence() == old(self).occurrence() + 1,
            final(self).spec_scope() == old(self).spec_scope(),
    {
        let cloned_scope = self.scope.clone();
        let cloned = ScopeTrack {
            scope_occurrence: self.scope_occurrence,
            scope: ScopeType::Local(self.scope_occurrence, Box::new(cloned_scope)),
        };
        self.scope_occurrence = self.scope_occurrence + 1;
        cloned
    }
}

/// How a function is provided: linked from native code or written in LeBlanc.
#[derive(Clone, Copy, Debug, PartialEq, Eq, Structural, Hash, PartialOrd)]
pub enum FunctionType {
    Linked,
    LeBlanc,
}

/// What a name stands for: a function with its argument types, or a variable.
#[derive(Debug, Hash)]
pub enum IdentStore {
    Function(String, Vec<LeBlancType>, FunctionType),
    Variable(String),
}

/// What a name stands for, as a value.
pub enum IdentKey {
    Function(Seq<char>, Seq<LeBlancType>, FunctionType),
    Variable(Seq<char>),
}

impl View for IdentStore {
    type V = IdentKey;

    open spec fn view(&self) -> IdentKey {
        match self {
            IdentStore::Function(s, a, f) => IdentKey::Function(s@, a@, *f),
            IdentStore::Variable(s) => IdentKey::Variable(s@),
        }
    }
}

impl IdentStore {
    /// The name itself.
    pub open spec fn spec_ident(self) -> Seq<char> {
        match self {
            IdentStore::Function(s, _, _) => s@,
            IdentStore::Variable(s) => s@,
        }
    }

    pub fn get_ident(&self) -> (r: &String)
        ensures
            r@ == self.spec_ident(),
    {
        match self {
            IdentStore::Function(s, _, _) => s,
            IdentStore::Variable(s) => s,
        }
    }
}

} // verus!
