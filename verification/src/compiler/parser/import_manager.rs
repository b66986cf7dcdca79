//! Modules as the later passes see them: a name and its top-level items.
use vstd::prelude::*;
use crate::compiler::parser::ast::{Cmpnt, Component};

verus! {

/// A module: its name and its top-level items, in source order.
#[derive(Debug)]
pub struct CompiledImport {
    pub name: String,
    pub components: Vec<Component>,
}

/// An import request: the module, and the names to take from it (`None` for the whole
/// module).
pub open spec fn request_view(r: (String, Option<Vec<String>>)) -> (Seq<char>, Option<Seq<Seq<char>>>) {
    (
        r.0@,
        match r.1 {
            Some(v) => Some(v@.map_values(|s: String| s@)),
            None => None,
        },
    )
}

/// The import a top-level item requests, if it is an import.
pub open spec fn requested(c: Component) -> Option<(Seq<char>, Option<Seq<Seq<char>>>)> {
    match c.data {
        Cmpnt::Import { module, import } => Some(
            (
                module@,
                match import {
                    Some(v) => Some(v@.map_values(|s: String| s@)),
                    None => None,
                },
            ),
        ),
        _ => None,
    }
}

/// The imports a run of items requests, in order.
pub open spec fn requests_of(cs: Seq<Component>) -> Seq<(Seq<char>, Option<Seq<Seq<char>>>)>
    decreases cs.len(),
{
    if cs.len() == 0 {
        Seq::empty()
    } else {
        requests_of(cs.drop_last()) + match requested(cs.last()) {
            Some(r) => seq![r],
            None => Seq::empty(),
        }
    }
}

/// Whether an item is taken when only the names `subs` are imported from its module: a
/// function, class, trait, extension or enum named among them, and every extension
/// import.
pub open spec fn kept(c: Component, subs: Seq<Seq<char>>) -> bool {
    match c.data {
        Cmpnt::Function { header, .. } => match header.data {
            Cmpnt::FunctionHeader { name, .. } => subs.contains(name@),
            _ => false,
        },
        Cmpnt::Class { name, .. } => subs.contains(name@),
        Cmpnt::Trait { name, .. } => subs.contains(name@),
        Cmpnt::Extension { name, .. } => subs.contains(name@),
        Cmpnt::Enum { name, .. } => subs.contains(name@),
        Cmpnt::ExtImport { .. } => true,
        _ => false,
    }
}

/// The items kept, in order.
pub open spec fn kept_of(cs: Seq<Component>, subs: Seq<Seq<char>>) -> Seq<Component>
    decreases cs.len(),
{
    if cs.len() == 0 {
        Seq::empty()
    } else {
        kept_of(cs.drop_last(), subs) + if kept(cs.last(), subs) {
            seq![cs.last()]
        } else {
            Seq::empty()
        }
    }
}

fn copy_strings(v: &Vec<String>) -> (r: Vec<String>)
    ensures
        r@ == v@,
{
    let mut r: Vec<String> = Vec::new();
    let mut i: usize = 0;
    while i < v.len()
        invariant
            i <= v.len(),
            r@ == v@.take(i as int),
        decreases v.len() - i,
    {
        r.push(v[i].clone());
        i = i + 1;
        assert(r@ =~= v@.take(i as int));
    }
    assert(v@.take(v@.len() as int) =~= v@);
    r
}

fn contains_name(subs: &Vec<String>, name: &String) -> (r: bool)
    ensures
        r == subs@.map_values(|s: String| s@).contains(name@),
{
    let ghost names = subs@.map_values(|s: String| s@);
    let mut i: usize = 0;
    while i < subs.len()
        invariant
            i <= subs@.len(),
            names == subs@.map_values(|s: String| s@),
            forall|j: int| 0 <= j < i ==> names[j] != name@,
        decreases subs.len() - i,
    {
        if crate::text::str_eq(subs[i].as_str(), name.as_str()) {
            assert(names[i as int] == name@);
            return true;
        }
        i = i + 1;
    }
    false
}

/// The import an item requests, if it is an import.
fn request_of(c: &Component) -> (r: Option<(String, Option<Vec<String>>)>)
    ensures
        r matches Some(x) ==> requested(*c) == Some(request_view(x)),
        r is None ==> requested(*c) is None,
{
    match &c.data {
        Cmpnt::Import { module, import } => {
            let names = match import {
                Some(v) => Some(copy_strings(v)),
                None => None,
            };
            Some((module.clone(), names))
        },
        _ => None,
    }
}

/// The imports a module requests, in the order its items stand.
pub fn import_requests(module: &CompiledImport) -> (r: Vec<(String, Option<Vec<String>>)>)
    ensures
        r@.map_values(|x: (String, Option<Vec<String>>)| request_view(x)) == requests_of(module.components@),
{
    let cs = &module.components;
    let mut r: Vec<(String, Option<Vec<String>>)> = Vec::new();
    let mut i: usize = 0;
    while i < cs.len()
        invariant
            i <= cs@.len(),
            r@.map_values(|x: (String, Option<Vec<String>>)| request_view(x)) == requests_of(cs@.take(i as int)),
        decreases cs.len() - i,
    {
        let got = request_of(&cs[i]);
        assert(cs@.take(i + 1).drop_last() =~= cs@.take(i as int));
        match got {
            Some(x) => {
                r.push(x);
            },
            None => {},
        }
        i = i + 1;
        assert(r@.map_values(|x: (String, Option<Vec<String>>)| request_view(x)) =~= requests_of(cs@.take(i as int)));
    }
    assert(cs@.take(cs@.len() as int) =~= cs@);
    r
}

/// Whether an item is taken when only `subs` are imported.
fn keeps(c: &Component, subs: &Vec<String>) -> (r: bool)
    ensures
        r == kept(*c, subs@.map_values(|s: String| s@)),
{
    match &c.data {
        Cmpnt::Function { header, .. } => match &header.data {
            Cmpnt::FunctionHeader { name, .. } => contains_name(subs, name),
            _ => false,
        },
        Cmpnt::Class { name, .. } => contains_name(subs, name),
        Cmpnt::Trait { name, .. } => contains_name(subs, name),
        Cmpnt::Extension { name, .. } => contains_name(subs, name),
        Cmpnt::Enum { name, .. } => contains_name(subs, name),
        Cmpnt::ExtImport { .. } => true,
        _ => false,
    }
}

/// What importing only the names `subs` from a module takes from its items: the items
/// kept, in order, and the imports the module itself requests, in order, which are
/// imported in their turn.
pub fn select_imported(components: Vec<Component>, subs: &Vec<String>) -> (r: (Vec<Component>, Vec<(String, Option<Vec<String>>)>))
    ensures
        r.0@ == kept_of(components@, subs@.map_values(|s: String| s@)),
        r.1@.map_values(|x: (String, Option<Vec<String>>)| request_view(x)) == requests_of(components@),
{
    let ghost all = components@;
    let n = components.len();
    let ghost names = subs@.map_values(|s: String| s@);
    let mut rest = components;
    let mut allowed: Vec<Component> = Vec::new();
    let mut requests: Vec<(String, Option<Vec<String>>)> = Vec::new();
    let mut i: usize = 0;
    while rest.len() > 0
        invariant
            rest@ == all.skip(i as int),
            i <= all.len(),
            all.len() == n,
            allowed@ == kept_of(all.take(i as int), names),
            names == subs@.map_values(|s: String| s@),
            requests@.map_values(|x: (String, Option<Vec<String>>)| request_view(x)) == requests_of(all.take(i as int)),
        decreases rest.len(),
    {
        let c = rest.remove(0);
        assert(c == all[i as int]);
        assert(all.take(i + 1).drop_last() =~= all.take(i as int));
        let got = request_of(&c);
        match got {
            Some(x) => {
                requests.push(x);
            },
            None => {},
        }
        if keeps(&c, subs) {
            allowed.push(c);
        }
        i = i + 1;
        assert(rest@ =~= all.skip(i as int));
        assert(allowed@ =~= kept_of(all.take(i as int), names));
        assert(requests@.map_values(|x: (String, Option<Vec<String>>)| request_view(x)) =~= requests_of(
            all.take(i as int),
        ));
    }
    assert(all.take(i as int) =~= all);
    (allowed, requests)
}

} // verus!
