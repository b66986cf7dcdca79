//! The value types of the LeBlanc language as the compiler front end sees them.
use vstd::prelude::*;

verus! {

/// Composite types built from other types.
#[derive(Clone, Copy, Debug, PartialEq, Eq, Structural, Hash)]
pub enum DerivedType {
    Iterator,
    List,
    Slice,
}

/// A LeBlanc type.  `Class(n)` is a user class; the front end uses `Class(0)` for a
/// name whose type is not known yet, and a positive `n` for the class scope it was
/// declared in.  `ConstantFlex(n)` is the still-open type of constant number `n`.
#[derive(Clone, Copy, Debug, PartialEq, Eq, Structural, Hash)]
pub enum LeBlancType {
    Class(u32),
    Flex,
    SelfType,
    Char,
    Short,
    Int,
    Int64,
    Int128,
    Arch,
    Float,
    Double,
    Boolean,
    String,
    Group,
    Function,
    Module,
    Dynamic,
    Exception,
    Derived(DerivedType),
    Promise,
    SuperLambda,
    ConstantFlex(u32),
    Trait(u32, bool),
    Marker,
    Null,
}


/// The type of the first entry named `name`, if any.
pub open spec fn native_lookup(s: Seq<(Seq<char>, LeBlancType)>, name: Seq<char>) -> Option<LeBlancType>
    decreases s.len(),
{
    if s.len() == 0 {
        None
    } else if s[0].0 == name {
        Some(s[0].1)
    } else {
        native_lookup(s.drop_first(), name)
    }
}

/// The names of the native types, each with its type. Which names a compiler accepts
/// as native types is the caller's to say.
pub struct NativeTypes {
    pub names: Vec<(String, LeBlancType)>,
}

impl View for NativeTypes {
    type V = Seq<(Seq<char>, LeBlancType)>;

    open spec fn view(&self) -> Seq<(Seq<char>, LeBlancType)> {
        self.names@.map_values(|p: (String, LeBlancType)| (p.0@, p.1))
    }
}

impl NativeTypes {
    /// The type named `name`, if it is a native type.
    pub fn lookup(&self, name: &str) -> (r: Option<LeBlancType>)
        ensures
            r == native_lookup(self@, name@),
    {
        let mut i: usize = 0;
        assert(self@.skip(0) =~= self@);
        while i < self.names.len()
            invariant
                i <= self.names.len(),
                native_lookup(self@, name@) == native_lookup(self@.skip(i as int), name@),
            decreases self.names.len() - i,
        {
            assert(self@.skip(i as int)[0] == (self.names@[i as int].0@, self.names@[i as int].1));
            assert(self@.skip(i as int).drop_first() =~= self@.skip(i + 1));
            if crate::text::str_eq(self.names[i].0.as_str(), name) {
                return Some(self.names[i].1);
            }
            i = i + 1;
        }
        None
    }

    /// Whether `name` is a native type.
    pub fn is_native_type(&self, name: &str) -> (r: bool)
        ensures
            r == (native_lookup(self@, name@) is Some),
    {
        self.lookup(name).is_some()
    }

    /// The native type named `name`; the unknown class for a name that is none.
    pub fn type_value(&self, name: &str) -> (r: LeBlancType)
        ensures
            r == (match native_lookup(self@, name@) {
                Some(t) => t,
                None => LeBlancType::Class(0),
            }),
    {
        match self.lookup(name) {
            Some(t) => t,
            None => LeBlancType::Class(0),
        }
    }
}

} // verus!
