//! The byte buffers that compiled constants, functions and classes are written to.
use vstd::prelude::*;
use std::collections::HashMap;

verus! {

/// The constants buffer, and for each function and class number a pair of buffers:
/// its metadata and its code.
#[derive(Debug)]
pub struct BytecodeGenerator {
    constants: Vec<u8>,
    functions: HashMap<u64, (Vec<u8>, Vec<u8>)>,
    classes: HashMap<u64, (Vec<u8>, Vec<u8>)>,
}

impl BytecodeGenerator {
    pub closed spec fn spec_constants(self) -> Seq<u8> {
        self.constants@
    }

    pub closed spec fn spec_functions(self) -> Map<u64, (Vec<u8>, Vec<u8>)> {
        self.functions@
    }

    pub closed spec fn spec_classes(self) -> Map<u64, (Vec<u8>, Vec<u8>)> {
        self.classes@
    }

    /// A generator with every buffer empty.
    pub fn new() -> (r: BytecodeGenerator)
        ensures
            r.spec_constants() == Seq::<u8>::empty(),
            r.spec_functions() == Map::<u64, (Vec<u8>, Vec<u8>)>::empty(),
            r.spec_classes() == Map::<u64, (Vec<u8>, Vec<u8>)>::empty(),
    {
        BytecodeGenerator { constants: Vec::new(), functions: HashMap::new(), classes: HashMap::new() }
    }

    pub fn constants(&mut self) -> (r: &mut Vec<u8>)
        ensures
            r@ == old(self).spec_constants(),
            final(self).spec_constants() == final(r)@,
            final(self).spec_functions() == old(self).spec_functions(),
            final(self).spec_classes() == old(self).spec_classes(),
    {
        &mut self.constants
    }

    /// The buffers of function `id`, made empty first if it has none.
    pub fn functions(&mut self, id: u64) -> (r: &mut (Vec<u8>, Vec<u8>))
        ensures
            old(self).spec_functions().contains_key(id) ==> *r == old(self).spec_functions()[id],
            !old(self).spec_functions().contains_key(id) ==> r.0@.len() == 0 && r.1@.len() == 0,
            final(self).spec_functions() == old(self).spec_functions().insert(id, *final(r)),
            final(self).spec_constants() == old(self).spec_constants(),
            final(self).spec_classes() == old(self).spec_classes(),
    {
        self.functions.entry(id).or_insert((Vec::new(), Vec::new()))
    }

    /// The buffers of class `id`, made empty first if it has none.
    pub fn classes(&mut self, id: u64) -> (r: &mut (Vec<u8>, Vec<u8>))
        ensures
            old(self).spec_classes().contains_key(id) ==> *r == old(self).spec_classes()[id],
            !old(self).spec_classes().contains_key(id) ==> r.0@.len() == 0 && r.1@.len() == 0,
            final(self).spec_classes() == old(self).spec_classes().insert(id, *final(r)),
            final(self).spec_constants() == old(self).spec_constants(),
            final(self).spec_functions() == old(self).spec_functions(),
    {
        self.classes.entry(id).or_insert((Vec::new(), Vec::new()))
    }
}

} // verus!
