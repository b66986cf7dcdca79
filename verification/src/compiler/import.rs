//! Imports named by a source file.
use vstd::prelude::*;

verus! {

/// An import: what is imported, where from, and of which kind.
#[derive(Debug)]
pub struct Import {
    pub name: String,
    pub source: String,
    pub import_type: ImportType,
}

impl Import {
    pub fn new(name: &String, source: &String, import_type: ImportType) -> (r: Import)
        ensures
            r.name@ == name@,
            r.source@ == source@,
            r.import_type == import_type,
    {
        Import { name: name.clone(), source: source.clone(), import_type }
    }
}

#[derive(Clone, Copy, Debug, PartialEq, Eq, Structural, Hash)]
pub enum ImportType {
    Extension,
    File,
    SubImport,
}

} // verus!
