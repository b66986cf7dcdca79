//! Scopes of the first grammar's declaration analysis.
use vstd::prelude::*;
use crate::native_types::LeBlancType;
use crate::text::u64_to_string;

verus! {

#[derive(Clone, Copy, Debug, PartialEq, Eq, Structural)]
pub struct SyntaxError {}

/// A scope: global, a class body, a local scope or a scope nested in a local one.
#[derive(Clone, Copy, Debug)]
pub enum ScopeType {
    Global,
    Class,
    Local(u64),
    NestedLocal(u64),
}

/// The printed form of a scope.
pub open spec fn spec_scope_name(s: ScopeType) -> Seq<char> {
    match s {
        ScopeType::Global => "Global"@,
        ScopeType::Class => "Class"@,
        ScopeType::Local(n) => "Local("@ + crate::text::decimal(n as nat) + ")"@,
        ScopeType::NestedLocal(n) => "NestedLocal("@ + crate::text::decimal(n as nat) + ")"@,
    }
}

/// When a scope counts as the same as another: a nested local scope is the same as the
/// local scope of its number; otherwise the printed forms must agree.
pub open spec fn spec_scope_eq(a: ScopeType, b: ScopeType) -> bool {
    match (a, b) {
        (ScopeType::NestedLocal(n), ScopeType::Local(m)) => n == m,
        _ => spec_scope_name(a) == spec_scope_name(b),
    }
}

impl ScopeType {
    pub fn to_string(&self) -> (r: String)
        ensures
            r@ == spec_scope_name(*self),
    {
        match self {
            ScopeType::Global => String::from_str("Global"),
            ScopeType::Class => String::from_str("Class"),
            ScopeType::Local(n) => {
                let mut s = String::from_str("Local(");
                let d = u64_to_string(*n);
                s.append(d.as_str());
                s.append(")");
                s
            },
            ScopeType::NestedLocal(n) => {
                let mut s = String::from_str("NestedLocal(");
                let d = u64_to_string(*n);
                s.append(d.as_str());
                s.append(")");
                s
            },
        }
    }
}

impl PartialEq for ScopeType {
    fn eq(&self, other: &Self) -> (r: bool) {
        match (self, other) {
            (ScopeType::NestedLocal(n), ScopeType::Local(m)) => *n == *m,
            _ => {
                let a = self.to_string();
                let b = other.to_string();
                crate::text::str_eq(a.as_str(), b.as_str())
            },
        }
    }
}

impl vstd::std_specs::cmp::PartialEqSpecImpl for ScopeType {
    open spec fn obeys_eq_spec() -> bool {
        true
    }

    open spec fn eq_spec(&self, other: &Self) -> bool {
        spec_scope_eq(*self, *other)
    }
}

/// A declaration: the scope it was made in, its argument types and its types.  Two
/// declarations are the same when their scopes are.
#[derive(Debug)]
pub struct ScopeValue {
    pub scope: ScopeType,
    pub arg_types: Vec<LeBlancType>,
    pub types: Vec<LeBlancType>,
}

impl PartialEq for ScopeValue {
    fn eq(&self, other: &Self) -> (r: bool) {
        self.scope == other.scope
    }
}

impl vstd::std_specs::cmp::PartialEqSpecImpl for ScopeValue {
    open spec fn obeys_eq_spec() -> bool {
        true
    }

    open spec fn eq_spec(&self, other: &Self) -> bool {
        spec_scope_eq(self.scope, other.scope)
    }
}

/// The declarations of one name.
#[derive(Debug)]
pub struct ScopeSet {
    pub inner_map: Vec<ScopeValue>,
}

} // verus!
