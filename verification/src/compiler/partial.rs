//! The result of reading one source file: its token trees, its imports and the
//! errors found on the way.
use vstd::prelude::*;
use crate::rustblanc::{ErrorStub, Node};

verus! {

#[derive(Debug)]
pub struct PartialFabric {
    pub path: String,
    tokens: Vec<Node>,
    imports: Vec<String>,
    errors: Vec<ErrorStub>,
}

impl PartialFabric {
    pub closed spec fn spec_path(self) -> Seq<char> {
        self.path@
    }

    pub closed spec fn spec_tokens(self) -> Seq<Node> {
        self.tokens@
    }

    pub closed spec fn spec_imports(self) -> Seq<String> {
        self.imports@
    }

    pub closed spec fn spec_errors(self) -> Seq<ErrorStub> {
        self.errors@
    }

    pub fn new(path: String, tokens: Vec<Node>, imports: Vec<String>, errors: Vec<ErrorStub>) -> (r: PartialFabric)
        ensures
            r.spec_path() == path@,
            r.spec_tokens() == tokens@,
            r.spec_imports() == imports@,
            r.spec_errors() == errors@,
    {
        PartialFabric { path, tokens, imports, errors }
    }

    /// A fabric read from no file: its path is empty.
    pub fn no_path(tokens: Vec<Node>, imports: Vec<String>, errors: Vec<ErrorStub>) -> (r: PartialFabric)
        ensures
            r.spec_path() == Seq::<char>::empty(),
            r.spec_tokens() == tokens@,
            r.spec_imports() == imports@,
            r.spec_errors() == errors@,
    {
        PartialFabric::new(String::new(), tokens, imports, errors)
    }

    pub fn tokens(&mut self) -> (r: &mut Vec<Node>)
        ensures
            r@ == old(self).spec_tokens(),
            final(self).spec_tokens() == final(r)@,
            final(self).spec_path() == old(self).spec_path(),
            final(self).spec_imports() == old(self).spec_imports(),
            final(self).spec_errors() == old(self).spec_errors(),
    {
        &mut self.tokens
    }

    pub fn errors(&self) -> (r: &Vec<ErrorStub>)
        ensures
            r@ == self.spec_errors(),
    {
        &self.errors
    }

    pub fn imports(&self) -> (r: &Vec<String>)
        ensures
            r@ == self.spec_imports(),
    {
        &self.imports
    }

    /// Whether the fabric holds no tokens.
    pub fn is_null(&self) -> (r: bool)
        ensures
            r == (self.spec_tokens().len() == 0),
    {
        self.tokens.is_empty()
    }
}

} // verus!
