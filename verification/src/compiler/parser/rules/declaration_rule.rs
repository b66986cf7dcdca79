//! The declaration rule: every function, argument and typed variable of a module is
//! recorded under its name with the scope it was declared in, and a declaration that
//! clashes with one already visible in its scope is a syntax error.
use vstd::prelude::*;
use crate::compiler::parser::ast::{Cmpnt, Component, Conditional, Expr, Expression, Id, Ident, Statement, Stmnt};
use crate::compiler::parser::function_sorter::{FunctionGroups, flat_items, functions_declared, group_items, linked_count, max_id};
use crate::compiler::parser::import_manager::CompiledImport;
use crate::compiler::parser::parse_structs::{
    clashes, lemma_visible_iff_clashes, DeclView, FunctionType, IdentKey, IdentStore, ScopeSet, ScopeTrack, ScopeType,
    ScopeValue, SyntaxError,
};
use crate::compiler::identifier::typed_token::copy_types;
use crate::native_types::LeBlancType;
use crate::text::str_eq;

verus! {

/// One part of a dotted name and what it names.
#[derive(Debug)]
pub struct UnpackedIdent {
    pub string: String,
    pub ty: UIdentType,
}

#[derive(Clone, Copy, Debug, PartialEq, Eq, Structural)]
pub enum UIdentType {
    Object,
    Module,
    Attr,
    FuncOrVar,
}

/// The names of a module with their declarations, as values.
pub open spec fn table_view(t: Seq<(IdentStore, ScopeSet)>) -> Seq<(IdentKey, Seq<DeclView>)> {
    t.map_values(|e: (IdentStore, ScopeSet)| (e.0@, e.1.decls()))
}

/// The index of the entry for `k`, if there is one.
pub open spec fn key_index(m: Seq<(IdentKey, Seq<DeclView>)>, k: IdentKey) -> Option<int>
    decreases m.len(),
{
    if m.len() == 0 {
        None
    } else if m[0].0 == k {
        Some(0)
    } else {
        match key_index(m.drop_first(), k) {
            Some(i) => Some(i + 1),
            None => None,
        }
    }
}

proof fn lemma_key_index(m: Seq<(IdentKey, Seq<DeclView>)>, k: IdentKey)
    ensures
        key_index(m, k) matches Some(i) ==> 0 <= i < m.len() && m[i].0 == k && forall|j: int|
            0 <= j < i ==> m[j].0 != k,
        key_index(m, k) is None ==> forall|j: int| 0 <= j < m.len() ==> m[j].0 != k,
    decreases m.len(),
{
    if m.len() > 0 {
        lemma_key_index(m.drop_first(), k);
        assert forall|j: int| 1 <= j < m.len() implies m[j] == m.drop_first()[j - 1] by {}
    }
}

/// Records the declaration `v` under `k`: a first declaration of a name opens its
/// entry; a later one is added to it unless it clashes with one visible in its scope,
/// which is an error (`None`) and leaves the table as it was.
pub open spec fn table_add(m: Seq<(IdentKey, Seq<DeclView>)>, k: IdentKey, v: DeclView) -> Option<Seq<(IdentKey, Seq<DeclView>)>> {
    match key_index(m, k) {
        None => Some(m.push((k, seq![v]))),
        Some(i) => if clashes(m[i].1, v.scope) {
            None
        } else {
            Some(m.update(i, (k, m[i].1.push(v))))
        },
    }
}

fn types_eq(a: &Vec<LeBlancType>, b: &Vec<LeBlancType>) -> (r: bool)
    ensures
        r == (a@ == b@),
{
    if a.len() != b.len() {
        return false;
    }
    let mut i: usize = 0;
    while i < a.len()
        invariant
            a@.len() == b@.len(),
            i <= a@.len(),
            forall|j: int| 0 <= j < i ==> a@[j] == b@[j],
        decreases a.len() - i,
    {
        if a[i] != b[i] {
            return false;
        }
        i = i + 1;
    }
    assert(a@ =~= b@);
    true
}

fn ident_store_eq(a: &IdentStore, b: &IdentStore) -> (r: bool)
    ensures
        r == (a@ == b@),
{
    match (a, b) {
        (IdentStore::Function(s1, t1, f1), IdentStore::Function(s2, t2, f2)) => {
            str_eq(s1.as_str(), s2.as_str()) && types_eq(t1, t2) && *f1 == *f2
        },
        (IdentStore::Variable(s1), IdentStore::Variable(s2)) => str_eq(s1.as_str(), s2.as_str()),
        _ => false,
    }
}

/// Finds the entry of the table for `k`.
fn find_key(table: &Vec<(IdentStore, ScopeSet)>, k: &IdentStore) -> (r: Option<usize>)
    ensures
        r matches Some(i) ==> key_index(table_view(table@), k@) == Some(i as int),
        r is None ==> key_index(table_view(table@), k@) is None,
{
    let ghost m = table_view(table@);
    proof {
        lemma_key_index(m, k@);
    }
    let mut i: usize = 0;
    while i < table.len()
        invariant
            m == table_view(table@),
            i <= table@.len(),
            forall|j: int| 0 <= j < i ==> m[j].0 != k@,
            key_index(m, k@) matches Some(x) ==> x >= i && x < m.len() && m[x].0 == k@ && forall|
                j: int,
            | 0 <= j < x ==> m[j].0 != k@,
            key_index(m, k@) is None ==> forall|j: int| 0 <= j < m.len() ==> m[j].0 != k@,
        decreases table.len() - i,
    {
        assert(m[i as int].0 == table@[i as int].0@);
        if ident_store_eq(&table[i].0, k) {
            return Some(i);
        }
        i = i + 1;
    }
    None
}

/// Records `value` under `ident` in the type map, or reports a clash with a declaration
/// visible in its scope.
fn add_to_type_map(type_map: &mut Vec<(IdentStore, ScopeSet)>, ident: IdentStore, value: ScopeValue) -> (r: Result<(), SyntaxError>)
    ensures
        match table_add(table_view(old(type_map)@), ident@, value@) {
            None => r is Err && table_view(final(type_map)@) == table_view(old(type_map)@),
            Some(t) => r is Ok && table_view(final(type_map)@) == t,
        },
{
    let ghost m = table_view(type_map@);
    let ghost v = value@;
    match find_key(type_map, &ident) {
        None => {
            let mut set = ScopeSet::new();
            set.insert(value);
            assert(set.decls() =~= seq![v]);
            type_map.push((ident, set));
            assert(table_view(type_map@) =~= m.push((ident@, seq![v])));
            Ok(())
        },
        Some(i) => {
            proof {
                lemma_key_index(m, ident@);
            }
            let (k, mut set) = type_map.remove(i);
            let ghost old_decls = set.decls();
            assert(old_decls == m[i as int].1);
            proof {
                lemma_visible_iff_clashes(set.values(), value.scope);
            }
            if set.invalid_in_scope(&value) {
                type_map.insert(i, (k, set));
                assert(table_view(type_map@) =~= m);
                Err(SyntaxError {  })
            } else {
                set.insert(value);
                assert(set.decls() =~= old_decls.push(v));
                type_map.insert(i, (k, set));
                assert(table_view(type_map@) =~= m.update(i as int, (ident@, old_decls.push(v))));
                Ok(())
            }
        },
    }
}

/// The name an entry is kept under.
pub open spec fn key_name(k: IdentKey) -> Seq<char> {
    match k {
        IdentKey::Function(s, _, _) => s,
        IdentKey::Variable(s) => s,
    }
}

/// Whether the table has an entry under the name `s`.
pub open spec fn names_key(m: Seq<(IdentKey, Seq<DeclView>)>, s: Seq<char>) -> bool {
    exists|j: int| 0 <= j < m.len() && key_name((#[trigger] m[j]).0) == s
}

/// The parts of a dotted name: the names of objects and attributes in order; an enum
/// variant or a typed list has none.
pub open spec fn unpacked_names(i: Ident) -> Seq<Seq<char>>
    decreases i,
{
    match i.data {
        Id::Ident { ident } => seq![ident@],
        Id::ObjIdent { ident, attr } => unpacked_names(*ident) + unpacked_names(*attr),
        _ => Seq::empty(),
    }
}

/// What each part of a dotted name names: a plain name that the table knows is first
/// taken for an object, any other for a function or a variable; a name of one part
/// always names a function or a variable.
pub open spec fn unpacked_kinds(i: Ident, m: Seq<(IdentKey, Seq<DeclView>)>) -> Seq<UIdentType>
    decreases i,
{
    let k = match i.data {
        Id::Ident { ident } => seq![
            if names_key(m, ident@) {
                UIdentType::Object
            } else {
                UIdentType::FuncOrVar
            },
        ],
        Id::ObjIdent { ident, attr } => unpacked_kinds(*ident, m) + unpacked_kinds(*attr, m),
        _ => Seq::empty(),
    };
    if k.len() == 1 && k[0] == UIdentType::Object {
        seq![UIdentType::FuncOrVar]
    } else {
        k
    }
}

proof fn lemma_unpacked_len(i: Ident, m: Seq<(IdentKey, Seq<DeclView>)>)
    ensures
        unpacked_kinds(i, m).len() == unpacked_names(i).len(),
    decreases i,
{
    match i.data {
        Id::ObjIdent { ident, attr } => {
            lemma_unpacked_len(*ident, m);
            lemma_unpacked_len(*attr, m);
        },
        _ => {},
    }
}

/// Whether the table has an entry under the name `s`.
fn names_in_table(table: &Vec<(IdentStore, ScopeSet)>, s: &String) -> (r: bool)
    ensures
        r == names_key(table_view(table@), s@),
{
    let ghost m = table_view(table@);
    let mut i: usize = 0;
    while i < table.len()
        invariant
            m == table_view(table@),
            i <= table@.len(),
            forall|j: int| 0 <= j < i ==> key_name(#[trigger] m[j].0) != s@,
        decreases table.len() - i,
    {
        let name = table[i].0.get_ident();
        if str_eq(name.as_str(), s.as_str()) {
            assert(key_name(m[i as int].0) == s@);
            return true;
        }
        i = i + 1;
    }
    false
}

/// Splits a dotted name into its parts, each with what it names.
fn unpack_ident(ident: &Ident, scope_map: &Vec<(IdentStore, ScopeSet)>) -> (r: Vec<UnpackedIdent>)
    ensures
        r@.len() == unpacked_names(*ident).len(),
        forall|k: int|
            0 <= k < r@.len() ==> (#[trigger] r@[k]).string@ == unpacked_names(*ident)[k] && r@[k].ty
                == unpacked_kinds(*ident, table_view(scope_map@))[k],
    decreases ident,
{
    let ghost m = table_view(scope_map@);
    let mut parts: Vec<UnpackedIdent> = Vec::new();
    match &ident.data {
        Id::Ident { ident: s } => {
            let ty = if names_in_table(scope_map, s) {
                UIdentType::Object
            } else {
                UIdentType::FuncOrVar
            };
            parts.push(UnpackedIdent { string: s.clone(), ty });
        },
        Id::ObjIdent { ident: a, attr } => {
            let mut x = unpack_ident(a, scope_map);
            parts.append(&mut x);
            let mut y = unpack_ident(attr, scope_map);
            let ghost xs = parts@;
            let ghost ys = y@;
            parts.append(&mut y);
            proof {
                lemma_unpacked_len(**a, m);
                lemma_unpacked_len(**attr, m);
                assert forall|k: int| 0 <= k < parts@.len() implies (#[trigger] parts@[k]).string@ == (
                unpacked_names(**a) + unpacked_names(**attr))[k] && parts@[k].ty == (unpacked_kinds(**a, m)
                    + unpacked_kinds(**attr, m))[k] by {
                    if k >= xs.len() {
                        assert(parts@[k] == ys[k - xs.len()]);
                    }
                }
            }
        },
        _ => {},
    }
    if parts.len() == 1 && parts[0].ty == UIdentType::Object {
        let last = parts.pop().unwrap();
        let UnpackedIdent { string, .. } = last;
        parts.push(UnpackedIdent { string, ty: UIdentType::FuncOrVar });
    }
    proof {
        lemma_unpacked_len(*ident, m);
    }
    parts
}

/// The numbers handed out to declarations: the next variable number, which starts again
/// at 0 with each function header, and the next global number.
#[derive(Clone, Copy, Debug)]
pub struct DeclCounters {
    pub variable_id: usize,
    pub global_id: usize,
}

/// An analysis as a value: the table of a module and the next variable and global
/// numbers.
pub struct Analysis {
    pub table: Seq<(IdentKey, Seq<DeclView>)>,
    pub vid: usize,
    pub gid: usize,
}

pub open spec fn analysis_of(table: Seq<(IdentStore, ScopeSet)>, c: DeclCounters) -> Analysis {
    Analysis { table: table_view(table), vid: c.variable_id, gid: c.global_id }
}

/// A scope tracker as a value: how many scopes were opened in it, and its scope.
pub open spec fn track_of(t: ScopeTrack) -> (u64, ScopeType) {
    (t.occurrence(), t.spec_scope())
}

/// Declares a variable of type `t`, named by the first of `names`, in scope `scope`,
/// under the next variable number: `None` when the numbers run out or there is no
/// name; else whether the declaration clashed, and the analysis after it.
pub open spec fn declare_var(t: LeBlancType, names: Seq<Seq<char>>, scope: ScopeType, a: Analysis) -> Option<(bool, Analysis)> {
    if a.vid == usize::MAX || names.len() == 0 {
        None
    } else {
        let d = DeclView { scope, arg_types: Seq::empty(), types: seq![t], id: a.vid };
        let a1 = Analysis { vid: (a.vid + 1) as usize, ..a };
        match table_add(a.table, IdentKey::Variable(names[0]), d) {
            None => Some((true, a1)),
            Some(tb) => Some((false, Analysis { table: tb, ..a1 })),
        }
    }
}

/// A typed name declares a variable; any other expression among the names of a typed
/// assignment declares nothing.
pub open spec fn ident_run(e: Expression, scope: ScopeType, a: Analysis) -> Option<(bool, Analysis)> {
    match e.data {
        Expr::TypedVariable { typing, variable } => declare_var(typing, unpacked_names(variable), scope, a),
        _ => Some((false, a)),
    }
}

/// The names of a typed assignment from the `i`th on, up to the first clash.
pub open spec fn idents_run(ids: Seq<Expression>, i: int, scope: ScopeType, a: Analysis) -> Option<(bool, Analysis)>
    decreases ids.len() - i,
{
    if i < 0 || i >= ids.len() {
        Some((false, a))
    } else {
        match ident_run(ids[i], scope, a) {
            None => None,
            Some((true, a2)) => Some((true, a2)),
            Some((false, a2)) => idents_run(ids, i + 1, scope, a2),
        }
    }
}

/// An expression: a typed assignment declares its typed names, a typed name declares
/// itself, anything else declares nothing.
pub open spec fn expr_run(e: Expression, scope: ScopeType, a: Analysis) -> Option<(bool, Analysis)> {
    match e.data {
        Expr::TypedAssignment { idents, .. } => idents_run(idents@, 0, scope, a),
        Expr::TypedVariable { typing, variable } => declare_var(typing, unpacked_names(variable), scope, a),
        _ => Some((false, a)),
    }
}

/// A statement analysed in a new local scope opened in `tr`: the child scope is
/// numbered by the count of scopes opened in `tr`, and that count goes up.
pub open spec fn bumped_run(s: Statement, tr: (u64, ScopeType), a: Analysis) -> Option<(bool, Analysis, (u64, ScopeType))>
    decreases s, 1int,
{
    if tr.0 == u64::MAX {
        None
    } else {
        match stmt_run(s, (tr.0, ScopeType::Local(tr.0, Box::new(tr.1))), a) {
            None => None,
            Some((e, a2, _)) => Some((e, a2, ((tr.0 + 1) as u64, tr.1))),
        }
    }
}

/// A statement analysed with the scope tracker `tr`: `None` when the analysis cannot go
/// on (numbers run out, or a typed name has no name); else whether a declaration
/// clashed, the analysis after it, and the tracker after it. A global statement is
/// analysed in a fresh global tracker; loops, `try`, `except` and the branches of a
/// conditional open a local scope; a block, and a chain of conditionals, goes through
/// its statements up to the first clash; a `for` declares its variable, whether or not it
/// clashes, before its body; a `return` stays in the scope it stands in.
pub open spec fn stmt_run(s: Statement, tr: (u64, ScopeType), a: Analysis) -> Option<(bool, Analysis, (u64, ScopeType))>
    decreases s, 0int,
{
    match s.data {
        Stmnt::Global { statement } => match stmt_run(*statement, (0u64, ScopeType::Global), a) {
            None => None,
            Some((e, a2, _)) => Some((e, a2, tr)),
        },
        Stmnt::Block { statements } => block_run(statements@, 0, tr, a),
        Stmnt::Line { expr } => match expr_run(expr, tr.1, a) {
            None => None,
            Some((e, a2)) => Some((e, a2, tr)),
        },
        Stmnt::Conditional { conditional } => match conditional {
            Conditional::If { statement, .. } => bumped_run(*statement, tr, a),
            Conditional::ElseIf { statement, .. } => bumped_run(*statement, tr, a),
            Conditional::Else { statement } => bumped_run(*statement, tr, a),
        },
        Stmnt::MultiConditional { conditionals } => block_run(conditionals@, 0, tr, a),
        Stmnt::While { statement, .. } => bumped_run(*statement, tr, a),
        Stmnt::For { variable, statement, .. } => match expr_run(variable, tr.1, a) {
            None => None,
            Some((_, a2)) => bumped_run(*statement, tr, a2),
        },
        Stmnt::InfLoop { statement } => bumped_run(*statement, tr, a),
        Stmnt::Try { statement } => bumped_run(*statement, tr, a),
        Stmnt::Except { statement, .. } => bumped_run(*statement, tr, a),
        Stmnt::Return { statement } => stmt_run(*statement, tr, a),
        Stmnt::NoStatement => Some((false, a, tr)),
    }
}

/// The statements of a block from the `i`th on, sharing the tracker, up to the first
/// clash.
pub open spec fn block_run(ss: Seq<Statement>, i: int, tr: (u64, ScopeType), a: Analysis) -> Option<(bool, Analysis, (u64, ScopeType))>
    decreases ss, ss.len() - i,
{
    if i < 0 || i >= ss.len() {
        Some((false, a, tr))
    } else {
        match stmt_run(ss[i], tr, a) {
            None => None,
            Some((true, a2, t2)) => Some((true, a2, t2)),
            Some((false, a2, t2)) => block_run(ss, i + 1, t2, a2),
        }
    }
}

/// The statement of a branch of a conditional.
pub open spec fn cond_statement(c: Conditional) -> Statement {
    match c {
        Conditional::If { statement, .. } => *statement,
        Conditional::ElseIf { statement, .. } => *statement,
        Conditional::Else { statement } => *statement,
    }
}

/// The type of an argument of a function header, and the parts of its name: a typed
/// name gives its own; anything else counts as a nameless argument of type `null`.
pub open spec fn arg_of(e: Expression) -> (LeBlancType, Seq<Seq<char>>) {
    match e.data {
        Expr::TypedVariable { typing, variable } => (typing, unpacked_names(variable)),
        _ => (LeBlancType::Null, seq![Seq::<char>::empty()]),
    }
}

/// The arguments of a function header from the `i`th on, each declared as a variable,
/// up to the first clash.
pub open spec fn args_run(args: Seq<Expression>, i: int, scope: ScopeType, a: Analysis) -> Option<(bool, Analysis)>
    decreases args.len() - i,
{
    if i < 0 || i >= args.len() {
        Some((false, a))
    } else {
        match declare_var(arg_of(args[i]).0, arg_of(args[i]).1, scope, a) {
            None => None,
            Some((true, a2)) => Some((true, a2)),
            Some((false, a2)) => args_run(args, i + 1, scope, a2),
        }
    }
}

/// A function header: the variable numbers start again at 0; the function is declared
/// in the global scope under its name and argument types, with the next global number,
/// then each argument in the function's scope.
pub open spec fn header_run(comp: Component, tr: (u64, ScopeType), a: Analysis) -> Option<(bool, Analysis)> {
    let a0 = Analysis { vid: 0, ..a };
    match comp.data {
        Cmpnt::FunctionHeader { name, args, returns: return_types } => if a0.gid == usize::MAX {
            None
        } else {
            let types = args@.map_values(|e: Expression| arg_of(e).0);
            let f = DeclView { scope: ScopeType::Global, arg_types: types, types: return_types@, id: a0.gid };
            let a1 = Analysis { gid: (a0.gid + 1) as usize, ..a0 };
            match table_add(a1.table, IdentKey::Function(name@, types, FunctionType::LeBlanc), f) {
                None => Some((true, a1)),
                Some(tb) => args_run(args@, 0, tr.1, Analysis { table: tb, ..a1 }),
            }
        },
        _ => Some((false, a0)),
    }
}

/// The items of a module from the `i`th on: each function opens a local scope of the
/// module's tracker, in which its header and then its body are analysed; clashes are
/// recorded nowhere but in what the table leaves out.
pub open spec fn components_run(cs: Seq<Component>, i: int, tr: (u64, ScopeType), a: Analysis) -> Option<Analysis>
    decreases cs.len() - i,
{
    if i < 0 || i >= cs.len() {
        Some(a)
    } else {
        match cs[i].data {
            Cmpnt::Function { header, body, .. } => if tr.0 == u64::MAX {
                None
            } else {
                let child = (tr.0, ScopeType::Local(tr.0, Box::new(tr.1)));
                match header_run(*header, child, a) {
                    None => None,
                    Some((_, a1)) => match stmt_run(body, child, a1) {
                        None => None,
                        Some((_, a2, _)) => components_run(cs, i + 1, ((tr.0 + 1) as u64, tr.1), a2),
                    },
                }
            },
            _ => components_run(cs, i + 1, tr, a),
        }
    }
}

/// The index of the module named `name` among those analysed, if any.
pub open spec fn name_index(out: Seq<(Seq<char>, Seq<(IdentKey, Seq<DeclView>)>)>, name: Seq<char>) -> Option<int>
    decreases out.len(),
{
    if out.len() == 0 {
        None
    } else if out[0].0 == name {
        Some(0)
    } else {
        match name_index(out.drop_first(), name) {
            Some(i) => Some(i + 1),
            None => None,
        }
    }
}

/// The table of module `name` put among those analysed: in place of an earlier module
/// of the same name, or else last.
pub open spec fn place(
    out: Seq<(Seq<char>, Seq<(IdentKey, Seq<DeclView>)>)>,
    name: Seq<char>,
    t: Seq<(IdentKey, Seq<DeclView>)>,
) -> Seq<(Seq<char>, Seq<(IdentKey, Seq<DeclView>)>)> {
    match name_index(out, name) {
        Some(j) => out.update(j, (name, t)),
        None => out.push((name, t)),
    }
}

/// The modules from the `i`th on, each analysed from an empty table with a fresh
/// tracker, the numbers going on from module to module.
pub open spec fn modules_run(
    mods: Seq<CompiledImport>,
    i: int,
    out: Seq<(Seq<char>, Seq<(IdentKey, Seq<DeclView>)>)>,
    vid: usize,
    gid: usize,
) -> Option<Seq<(Seq<char>, Seq<(IdentKey, Seq<DeclView>)>)>>
    decreases mods.len() - i,
{
    if i < 0 || i >= mods.len() {
        Some(out)
    } else {
        match components_run(
            mods[i].components@,
            0,
            (0u64, ScopeType::Global),
            Analysis { table: Seq::empty(), vid, gid },
        ) {
            None => None,
            Some(a) => modules_run(mods, i + 1, place(out, mods[i].name@, a.table), a.vid, a.gid),
        }
    }
}

/// The tables of a program's modules, by module name; the global numbers start after
/// the `builtins` functions the compiler provides.
pub open spec fn analysis_run(mods: Seq<CompiledImport>, builtins: usize) -> Option<Seq<(Seq<char>, Seq<(IdentKey, Seq<DeclView>)>)>> {
    modules_run(mods, 0, Seq::empty(), 0, builtins)
}

/// The tables of a program as values.
pub open spec fn groups_view(r: Seq<(String, Vec<(IdentStore, ScopeSet)>)>) -> Seq<(Seq<char>, Seq<(IdentKey, Seq<DeclView>)>)> {
    r.map_values(|g: (String, Vec<(IdentStore, ScopeSet)>)| (g.0@, table_view(g.1@)))
}

/// Hands out the next variable number.
fn vid_pp(c: &mut DeclCounters) -> (r: usize)
    requires
        old(c).variable_id < usize::MAX,
    ensures
        r == old(c).variable_id,
        final(c).variable_id == old(c).variable_id + 1,
        final(c).global_id == old(c).global_id,
{
    let current = c.variable_id;
    c.variable_id = current + 1;
    current
}

/// Hands out the next global number.
fn gid_pp(c: &mut DeclCounters) -> (r: usize)
    requires
        old(c).global_id < usize::MAX,
    ensures
        r == old(c).global_id,
        final(c).global_id == old(c).global_id + 1,
        final(c).variable_id == old(c).variable_id,
{
    let current = c.global_id;
    c.global_id = current + 1;
    current
}

/// The first part of a dotted name; there must be one.
fn first_name(ident: &Ident, table: &Vec<(IdentStore, ScopeSet)>) -> (r: String)
    requires
        unpacked_names(*ident).len() > 0,
    ensures
        r@ == unpacked_names(*ident)[0],
{
    let parts = unpack_ident(ident, table);
    parts[0].string.clone()
}

/// Declares the variable `name` of type `typing` in `scope` under the next variable
/// number.
fn declare_named(
    typing: LeBlancType,
    name: String,
    scope: ScopeType,
    table: &mut Vec<(IdentStore, ScopeSet)>,
    c: &mut DeclCounters,
) -> (r: Option<SyntaxError>)
    requires
        declare_var(typing, seq![name@], scope, analysis_of(old(table)@, *old(c))) is Some,
    ensures
        ({
            let x = declare_var(typing, seq![name@], scope, analysis_of(old(table)@, *old(c))).unwrap();
            &&& r is Some == x.0
            &&& analysis_of(final(table)@, *final(c)) == x.1
        }),
{
    let id = vid_pp(c);
    let value = ScopeValue { scope, arg_types: Vec::new(), types: vec![typing], id };
    assert(value.arg_types@ =~= Seq::<LeBlancType>::empty());
    assert(value.types@ =~= seq![typing]);
    match add_to_type_map(table, IdentStore::Variable(name), value) {
        Ok(_) => None,
        Err(err) => Some(err),
    }
}

/// Declares the variable named by `variable`, of type `typing`, in `scope`.
fn declare_variable(
    typing: LeBlancType,
    variable: &Ident,
    scope: ScopeType,
    table: &mut Vec<(IdentStore, ScopeSet)>,
    c: &mut DeclCounters,
) -> (r: Option<SyntaxError>)
    requires
        declare_var(typing, unpacked_names(*variable), scope, analysis_of(old(table)@, *old(c))) is Some,
    ensures
        ({
            let x = declare_var(typing, unpacked_names(*variable), scope, analysis_of(old(table)@, *old(c))).unwrap();
            &&& r is Some == x.0
            &&& analysis_of(final(table)@, *final(c)) == x.1
        }),
{
    let name = first_name(variable, table);
    declare_named(typing, name, scope, table, c)
}

/// A name of a typed assignment: a typed name declares a variable in the tracker's scope.
fn dec_analy_ident(
    expr: &Expression,
    scope_value: &ScopeTrack,
    type_map: &mut Vec<(IdentStore, ScopeSet)>,
    c: &mut DeclCounters,
) -> (r: Option<SyntaxError>)
    requires
        ident_run(*expr, scope_value.spec_scope(), analysis_of(old(type_map)@, *old(c))) is Some,
    ensures
        ({
            let x = ident_run(*expr, scope_value.spec_scope(), analysis_of(old(type_map)@, *old(c))).unwrap();
            &&& r is Some == x.0
            &&& analysis_of(final(type_map)@, *final(c)) == x.1
        }),
{
    match &expr.data {
        Expr::TypedVariable { typing, variable } => declare_variable(
            *typing,
            variable,
            scope_value.get_scope_type(),
            type_map,
            c,
        ),
        _ => None,
    }
}

/// An expression: the typed names of a typed assignment, up to the first clash, or a
/// typed name, are declared in the tracker's scope.
fn dec_analy_expr(
    expr: &Expression,
    scope_type: &ScopeTrack,
    type_map: &mut Vec<(IdentStore, ScopeSet)>,
    c: &mut DeclCounters,
) -> (r: Option<SyntaxError>)
    requires
        expr_run(*expr, scope_type.spec_scope(), analysis_of(old(type_map)@, *old(c))) is Some,
    ensures
        ({
            let x = expr_run(*expr, scope_type.spec_scope(), analysis_of(old(type_map)@, *old(c))).unwrap();
            &&& r is Some == x.0
            &&& analysis_of(final(type_map)@, *final(c)) == x.1
        }),
{
    match &expr.data {
        Expr::TypedAssignment { idents: ids, .. } => {
            let ghost goal = idents_run(ids@, 0, scope_type.spec_scope(), analysis_of(type_map@, *c));
            let mut i: usize = 0;
            while i < ids.len()
                invariant
                    i <= ids@.len(),
                    goal is Some,
                    goal == expr_run(*expr, scope_type.spec_scope(), analysis_of(old(type_map)@, *old(c))),
                    idents_run(ids@, i as int, scope_type.spec_scope(), analysis_of(type_map@, *c)) == goal,
                decreases ids.len() - i,
            {
                let ghost before = analysis_of(type_map@, *c);
                let r = dec_analy_ident(&ids[i], scope_type, type_map, c);
                assert(idents_run(ids@, i as int, scope_type.spec_scope(), before) == match ident_run(
                    ids@[i as int],
                    scope_type.spec_scope(),
                    before,
                ) {
                    None => None,
                    Some((true, a2)) => Some((true, a2)),
                    Some((false, a2)) => idents_run(ids@, i + 1, scope_type.spec_scope(), a2),
                });
                match r {
                    None => {},
                    Some(err) => return Some(err),
                }
                i = i + 1;
            }
            None
        },
        Expr::TypedVariable { typing, variable } => declare_variable(
            *typing,
            variable,
            scope_type.get_scope_type(),
            type_map,
            c,
        ),
        _ => None,
    }
}

/// The statements of a block, sharing the tracker, up to the first clash.
fn dec_analy_block(
    statements: &Vec<Statement>,
    scope_type: &mut ScopeTrack,
    type_map: &mut Vec<(IdentStore, ScopeSet)>,
    c: &mut DeclCounters,
) -> (r: Option<SyntaxError>)
    requires
        block_run(statements@, 0, track_of(*old(scope_type)), analysis_of(old(type_map)@, *old(c))) is Some,
    ensures
        ({
            let x = block_run(statements@, 0, track_of(*old(scope_type)), analysis_of(old(type_map)@, *old(c))).unwrap();
            &&& r is Some == x.0
            &&& analysis_of(final(type_map)@, *final(c)) == x.1
            &&& track_of(*final(scope_type)) == x.2
        }),
    decreases statements,
{
    let ghost goal = block_run(statements@, 0, track_of(*scope_type), analysis_of(type_map@, *c));
    let mut i: usize = 0;
    while i < statements.len()
        invariant
            i <= statements@.len(),
            goal is Some,
            goal == block_run(statements@, 0, track_of(*old(scope_type)), analysis_of(old(type_map)@, *old(c))),
            block_run(statements@, i as int, track_of(*scope_type), analysis_of(type_map@, *c)) == goal,
        decreases statements.len() - i,
    {
        let statement = &statements[i];
        assert(decreases_to!(statements => statements@[i as int]));
        let ghost before = analysis_of(type_map@, *c);
        let ghost tr = track_of(*scope_type);
        let r = dec_analy_stmnt(statement, scope_type, type_map, c);
        assert(block_run(statements@, i as int, tr, before) == match stmt_run(statements@[i as int], tr, before) {
            None => None,
            Some((true, a2, t2)) => Some((true, a2, t2)),
            Some((false, a2, t2)) => block_run(statements@, i + 1, t2, a2),
        });
        match r {
            None => {},
            Some(err) => return Some(err),
        }
        i = i + 1;
    }
    None
}

/// A branch of a conditional, in a new local scope of the tracker.
fn dec_analy_cond(
    cond: &Conditional,
    scope_value: &mut ScopeTrack,
    type_map: &mut Vec<(IdentStore, ScopeSet)>,
    c: &mut DeclCounters,
) -> (r: Option<SyntaxError>)
    requires
        bumped_run(cond_statement(*cond), track_of(*old(scope_value)), analysis_of(old(type_map)@, *old(c))) is Some,
    ensures
        ({
            let x = bumped_run(cond_statement(*cond), track_of(*old(scope_value)), analysis_of(old(type_map)@, *old(c))).unwrap();
            &&& r is Some == x.0
            &&& analysis_of(final(type_map)@, *final(c)) == x.1
            &&& track_of(*final(scope_value)) == x.2
        }),
    decreases cond,
{
    let statement = match cond {
        Conditional::If { statement, .. } => statement,
        Conditional::ElseIf { statement, .. } => statement,
        Conditional::Else { statement } => statement,
    };
    let mut bump = scope_value.bump();
    dec_analy_stmnt(&**statement, &mut bump, type_map, c)
}

/// A statement in a new local scope of the tracker.
fn dec_analy_bumped(
    statement: &Statement,
    scope_type: &mut ScopeTrack,
    type_map: &mut Vec<(IdentStore, ScopeSet)>,
    c: &mut DeclCounters,
) -> (r: Option<SyntaxError>)
    requires
        bumped_run(*statement, track_of(*old(scope_type)), analysis_of(old(type_map)@, *old(c))) is Some,
    ensures
        ({
            let x = bumped_run(*statement, track_of(*old(scope_type)), analysis_of(old(type_map)@, *old(c))).unwrap();
            &&& r is Some == x.0
            &&& analysis_of(final(type_map)@, *final(c)) == x.1
            &&& track_of(*final(scope_type)) == x.2
        }),
    decreases statement, 1int,
{
    let mut bump = scope_type.bump();
    dec_analy_stmnt(statement, &mut bump, type_map, c)
}

/// A statement, with the tracker of the scope it stands in.
fn dec_analy_stmnt(
    statement: &Statement,
    scope_type: &mut ScopeTrack,
    type_map: &mut Vec<(IdentStore, ScopeSet)>,
    c: &mut DeclCounters,
) -> (r: Option<SyntaxError>)
    requires
        stmt_run(*statement, track_of(*old(scope_type)), analysis_of(old(type_map)@, *old(c))) is Some,
    ensures
        ({
            let x = stmt_run(*statement, track_of(*old(scope_type)), analysis_of(old(type_map)@, *old(c))).unwrap();
            &&& r is Some == x.0
            &&& analysis_of(final(type_map)@, *final(c)) == x.1
            &&& track_of(*final(scope_type)) == x.2
        }),
    decreases statement, 0int,
{
    match &statement.data {
        Stmnt::Global { statement } => {
            let mut fresh = ScopeTrack::default();
            dec_analy_stmnt(&**statement, &mut fresh, type_map, c)
        },
        Stmnt::Block { statements } => dec_analy_block(statements, scope_type, type_map, c),
        Stmnt::Line { expr } => dec_analy_expr(expr, scope_type, type_map, c),
        Stmnt::Conditional { conditional } => dec_analy_cond(conditional, scope_type, type_map, c),
        Stmnt::MultiConditional { conditionals } => dec_analy_block(conditionals, scope_type, type_map, c),
        Stmnt::While { statement, .. } => dec_analy_bumped(&**statement, scope_type, type_map, c),
        Stmnt::For { variable, statement, .. } => {
            let _ = dec_analy_expr(variable, scope_type, type_map, c);
            dec_analy_bumped(&**statement, scope_type, type_map, c)
        },
        Stmnt::InfLoop { statement } => dec_analy_bumped(&**statement, scope_type, type_map, c),
        Stmnt::Try { statement } => dec_analy_bumped(&**statement, scope_type, type_map, c),
        Stmnt::Except { statement, .. } => dec_analy_bumped(&**statement, scope_type, type_map, c),
        Stmnt::Return { statement } => dec_analy_stmnt(&**statement, scope_type, type_map, c),
        Stmnt::NoStatement => None,
    }
}

/// A function header: the variable numbers start again at 0; the function is declared
/// in the global scope under its name and argument types, then each argument in the
/// tracker's scope, up to the first clash.
fn analyze_header(
    comp: &Component,
    scope_type: &ScopeTrack,
    type_map: &mut Vec<(IdentStore, ScopeSet)>,
    c: &mut DeclCounters,
) -> (r: Option<SyntaxError>)
    requires
        header_run(*comp, track_of(*scope_type), analysis_of(old(type_map)@, *old(c))) is Some,
    ensures
        ({
            let x = header_run(*comp, track_of(*scope_type), analysis_of(old(type_map)@, *old(c))).unwrap();
            &&& r is Some == x.0
            &&& analysis_of(final(type_map)@, *final(c)) == x.1
        }),
{
    c.variable_id = 0;
    match &comp.data {
        Cmpnt::FunctionHeader { name, args, returns: return_types } => {
            let ghost types = args@.map_values(|e: Expression| arg_of(e).0);
            let mut arg_types: Vec<LeBlancType> = Vec::new();
            let mut i: usize = 0;
            while i < args.len()
                invariant
                    i <= args@.len(),
                    types == args@.map_values(|e: Expression| arg_of(e).0),
                    arg_types@ == types.take(i as int),
                decreases args.len() - i,
            {
                let t = match &args[i].data {
                    Expr::TypedVariable { typing, .. } => *typing,
                    _ => LeBlancType::Null,
                };
                arg_types.push(t);
                i = i + 1;
                assert(arg_types@ =~= types.take(i as int));
            }
            assert(arg_types@ =~= types);
            let id = gid_pp(c);
            let function = ScopeValue {
                scope: ScopeType::Global,
                arg_types: copy_types(&arg_types),
                types: copy_types(return_types),
                id,
            };
            match add_to_type_map(
                type_map,
                IdentStore::Function(name.clone(), arg_types, FunctionType::LeBlanc),
                function,
            ) {
                Ok(_) => {},
                Err(err) => return Some(err),
            }
            let ghost goal = header_run(*comp, track_of(*scope_type), analysis_of(old(type_map)@, *old(c)));
            let mut j: usize = 0;
            while j < args.len()
                invariant
                    j <= args@.len(),
                    goal is Some,
                    goal == header_run(*comp, track_of(*scope_type), analysis_of(old(type_map)@, *old(c))),
                    args_run(args@, j as int, scope_type.spec_scope(), analysis_of(type_map@, *c)) == goal,
                decreases args.len() - j,
            {
                let ghost before = analysis_of(type_map@, *c);
                let (t, nm) = match &args[j].data {
                    Expr::TypedVariable { typing, variable } => (*typing, first_name(variable, type_map)),
                    _ => (LeBlancType::Null, String::new()),
                };
                assert(declare_var(t, seq![nm@], scope_type.spec_scope(), before) == declare_var(
                    arg_of(args@[j as int]).0,
                    arg_of(args@[j as int]).1,
                    scope_type.spec_scope(),
                    before,
                ));
                let r = declare_named(t, nm, scope_type.get_scope_type(), type_map, c);
                match r {
                    None => {},
                    Some(err) => return Some(err),
                }
                j = j + 1;
            }
            None
        },
        _ => None,
    }
}

/// Puts the table of module `name` among those analysed: in place of an earlier module
/// of the same name, or else last.
fn place_table(import_map: &mut FunctionGroups, name: &String, table: Vec<(IdentStore, ScopeSet)>)
    ensures
        groups_view(final(import_map)@) == place(groups_view(old(import_map)@), name@, table_view(table@)),
{
    let ghost out = groups_view(import_map@);
    let mut i: usize = 0;
    while i < import_map.len()
        invariant
            i <= import_map@.len(),
            import_map@ == old(import_map)@,
            out == groups_view(import_map@),
            forall|j: int| 0 <= j < i ==> out[j].0 != name@,
        decreases import_map.len() - i,
    {
        assert(out[i as int].0 == import_map@[i as int].0@);
        if str_eq(import_map[i].0.as_str(), name.as_str()) {
            proof {
                lemma_name_index(out, name@);
                assert(name_index(out, name@) == Some(i as int));
            }
            let _ = import_map.remove(i);
            import_map.insert(i, (name.clone(), table));
            assert(groups_view(import_map@) =~= out.update(i as int, (name@, table_view(table@))));
            return;
        }
        i = i + 1;
    }
    proof {
        lemma_name_index(out, name@);
    }
    import_map.push((name.clone(), table));
    assert(groups_view(import_map@) =~= out.push((name@, table_view(table@))));
}

proof fn lemma_name_index(out: Seq<(Seq<char>, Seq<(IdentKey, Seq<DeclView>)>)>, name: Seq<char>)
    ensures
        name_index(out, name) matches Some(i) ==> 0 <= i < out.len() && out[i].0 == name && forall|j: int|
            0 <= j < i ==> out[j].0 != name,
        name_index(out, name) is None ==> forall|j: int| 0 <= j < out.len() ==> out[j].0 != name,
    decreases out.len(),
{
    if out.len() > 0 {
        lemma_name_index(out.drop_first(), name);
        assert forall|j: int| 1 <= j < out.len() implies out[j] == out.drop_first()[j - 1] by {}
    }
}

/// Analyses the declarations of every module of a program: the table of each, by module
/// name (a later module replaces an earlier one of the same name). The global numbers
/// start after the `builtins` functions the compiler provides and go on from module to
/// module. A declaration that clashes is left out of its table; the analysis of that
/// block, branch or header stops there.
pub fn declaration_analysis(modules: &mut Vec<CompiledImport>, builtins: usize) -> (r: FunctionGroups)
    requires
        analysis_run(old(modules)@, builtins) is Some,
    ensures
        final(modules)@ == old(modules)@,
        groups_view(r@) == analysis_run(old(modules)@, builtins).unwrap(),
        functions_declared(r@),
        linked_count(flat_items(r@), flat_items(r@).len() as int) <= max_id(flat_items(r@)),
{
    let mut c = DeclCounters { variable_id: 0, global_id: builtins };
    let mut import_map: FunctionGroups = Vec::new();
    let ghost mods = modules@;
    let ghost goal = analysis_run(mods, builtins);
    assert(groups_view(import_map@) =~= Seq::empty());
    let mut i: usize = 0;
    while i < modules.len()
        invariant
            i <= modules@.len(),
            modules@ == mods,
            goal is Some,
            goal == analysis_run(mods, builtins),
            modules_run(mods, i as int, groups_view(import_map@), c.variable_id, c.global_id) == goal,
        decreases modules.len() - i,
    {
        let module: &CompiledImport = &modules[i];
        let components = &module.components;
        let mut type_map: Vec<(IdentStore, ScopeSet)> = Vec::new();
        let mut scope = ScopeTrack::default();
        let ghost start = Analysis { table: Seq::empty(), vid: c.variable_id, gid: c.global_id };
        let ghost run = components_run(components@, 0, (0u64, ScopeType::Global), start);
        assert(table_view(type_map@) =~= Seq::empty());
        let mut j: usize = 0;
        while j < components.len()
            invariant
                j <= components@.len(),
                run is Some,
                components_run(components@, j as int, track_of(scope), analysis_of(type_map@, c)) == run,
            decreases components.len() - j,
        {
            match &components[j].data {
                Cmpnt::Function { header, body, .. } => {
                    let mut st = scope.bump();
                    let _ = analyze_header(header, &st, &mut type_map, &mut c);
                    let _ = dec_analy_stmnt(body, &mut st, &mut type_map, &mut c);
                },
                _ => {},
            }
            j = j + 1;
        }
        place_table(&mut import_map, &module.name, type_map);
        i = i + 1;
    }
    proof {
        declarations_never_clash(mods, builtins);
        lemma_sortable(import_map@);
    }
    import_map
}

/// Whether a name is a variable or a function written in LeBlanc.
pub open spec fn own_key(k: IdentKey) -> bool {
    k matches IdentKey::Function(_, _, f) ==> f == FunctionType::LeBlanc
}

/// A table with one entry per name and at least one declaration in each, naming only
/// variables and functions written in LeBlanc, in which no declaration clashes with one
/// made before it under the same name.
pub open spec fn table_wf(m: Seq<(IdentKey, Seq<DeclView>)>) -> bool {
    &&& forall|i: int, j: int| 0 <= i < j < m.len() ==> (#[trigger] m[i]).0 != (#[trigger] m[j]).0
    &&& forall|i: int| 0 <= i < m.len() ==> (#[trigger] m[i]).1.len() > 0 && own_key(m[i].0)
    &&& forall|i: int, k: int|
        0 <= i < m.len() && 0 <= k < m[i].1.len() ==> !clashes(#[trigger] m[i].1.take(k), m[i].1[k].scope)
}

proof fn lemma_no_clash_in_empty(t: ScopeType)
    ensures
        !clashes(Seq::<DeclView>::empty(), t),
    decreases t,
{
    if let ScopeType::Local(_, p) = t {
        lemma_no_clash_in_empty(*p);
    }
}

proof fn lemma_table_add_wf(m: Seq<(IdentKey, Seq<DeclView>)>, k: IdentKey, v: DeclView)
    requires
        table_wf(m),
        own_key(k),
    ensures
        table_add(m, k, v) matches Some(t) ==> table_wf(t),
{
    lemma_key_index(m, k);
    match key_index(m, k) {
        None => {
            let t = m.push((k, seq![v]));
            lemma_no_clash_in_empty(v.scope);
            assert(seq![v].take(0) =~= Seq::<DeclView>::empty());
            assert forall|i: int, x: int| 0 <= i < t.len() && 0 <= x < t[i].1.len() implies !clashes(
                #[trigger] t[i].1.take(x),
                t[i].1[x].scope,
            ) by {
                if i < m.len() {
                    assert(t[i] == m[i]);
                }
            }
            assert forall|i: int, j: int| 0 <= i < j < t.len() implies (#[trigger] t[i]).0 != (#[trigger] t[j]).0 by {
                if j < m.len() {
                    assert(t[i] == m[i] && t[j] == m[j]);
                } else {
                    assert(t[i] == m[i]);
                }
            }
        },
        Some(i0) => {
            if !clashes(m[i0].1, v.scope) {
                let ds = m[i0].1.push(v);
                let t = m.update(i0, (k, ds));
                assert forall|i: int, x: int| 0 <= i < t.len() && 0 <= x < t[i].1.len() implies !clashes(
                    #[trigger] t[i].1.take(x),
                    t[i].1[x].scope,
                ) by {
                    if i != i0 {
                        assert(t[i] == m[i]);
                    } else if x < m[i0].1.len() {
                        assert(ds.take(x) =~= m[i0].1.take(x));
                        assert(!clashes(m[i0].1.take(x), m[i0].1[x].scope));
                    } else {
                        assert(ds.take(x) =~= m[i0].1);
                    }
                }
                assert forall|i: int, j: int| 0 <= i < j < t.len() implies (#[trigger] t[i]).0 != (#[trigger] t[j]).0 by {
                    assert(t[i].0 == m[i].0 && t[j].0 == m[j].0);
                }
            }
        },
    }
}

proof fn lemma_declare_var_wf(t: LeBlancType, names: Seq<Seq<char>>, scope: ScopeType, a: Analysis)
    requires
        table_wf(a.table),
    ensures
        declare_var(t, names, scope, a) matches Some((_, a2)) ==> table_wf(a2.table),
{
    if a.vid != usize::MAX && names.len() > 0 {
        lemma_table_add_wf(
            a.table,
            IdentKey::Variable(names[0]),
            DeclView { scope, arg_types: Seq::empty(), types: seq![t], id: a.vid },
        );
    }
}

proof fn lemma_idents_wf(ids: Seq<Expression>, i: int, scope: ScopeType, a: Analysis)
    requires
        table_wf(a.table),
    ensures
        idents_run(ids, i, scope, a) matches Some((_, a2)) ==> table_wf(a2.table),
    decreases ids.len() - i,
{
    if 0 <= i < ids.len() {
        match ids[i].data {
            Expr::TypedVariable { typing, variable } => lemma_declare_var_wf(typing, unpacked_names(variable), scope, a),
            _ => {},
        }
        match ident_run(ids[i], scope, a) {
            Some((false, a2)) => lemma_idents_wf(ids, i + 1, scope, a2),
            _ => {},
        }
    }
}

proof fn lemma_expr_wf(e: Expression, scope: ScopeType, a: Analysis)
    requires
        table_wf(a.table),
    ensures
        expr_run(e, scope, a) matches Some((_, a2)) ==> table_wf(a2.table),
{
    match e.data {
        Expr::TypedAssignment { idents, .. } => lemma_idents_wf(idents@, 0, scope, a),
        Expr::TypedVariable { typing, variable } => lemma_declare_var_wf(typing, unpacked_names(variable), scope, a),
        _ => {},
    }
}

proof fn lemma_bumped_wf(s: Statement, tr: (u64, ScopeType), a: Analysis)
    requires
        table_wf(a.table),
    ensures
        bumped_run(s, tr, a) matches Some((_, a2, _)) ==> table_wf(a2.table),
    decreases s, 1int,
{
    if tr.0 != u64::MAX {
        lemma_stmt_wf(s, (tr.0, ScopeType::Local(tr.0, Box::new(tr.1))), a);
    }
}

proof fn lemma_stmt_wf(s: Statement, tr: (u64, ScopeType), a: Analysis)
    requires
        table_wf(a.table),
    ensures
        stmt_run(s, tr, a) matches Some((_, a2, _)) ==> table_wf(a2.table),
    decreases s, 0int,
{
    match s.data {
        Stmnt::Global { statement } => lemma_stmt_wf(*statement, (0u64, ScopeType::Global), a),
        Stmnt::Block { statements } => lemma_block_wf(statements@, 0, tr, a),
        Stmnt::Line { expr } => lemma_expr_wf(expr, tr.1, a),
        Stmnt::Conditional { conditional } => match conditional {
            Conditional::If { statement, .. } => lemma_bumped_wf(*statement, tr, a),
            Conditional::ElseIf { statement, .. } => lemma_bumped_wf(*statement, tr, a),
            Conditional::Else { statement } => lemma_bumped_wf(*statement, tr, a),
        },
        Stmnt::MultiConditional { conditionals } => lemma_block_wf(conditionals@, 0, tr, a),
        Stmnt::While { statement, .. } => lemma_bumped_wf(*statement, tr, a),
        Stmnt::For { variable, statement, .. } => {
            lemma_expr_wf(variable, tr.1, a);
            match expr_run(variable, tr.1, a) {
                Some((_, a2)) => lemma_bumped_wf(*statement, tr, a2),
                None => {},
            }
        },
        Stmnt::InfLoop { statement } => lemma_bumped_wf(*statement, tr, a),
        Stmnt::Try { statement } => lemma_bumped_wf(*statement, tr, a),
        Stmnt::Except { statement, .. } => lemma_bumped_wf(*statement, tr, a),
        Stmnt::Return { statement } => lemma_stmt_wf(*statement, tr, a),
        Stmnt::NoStatement => {},
    }
}

proof fn lemma_block_wf(ss: Seq<Statement>, i: int, tr: (u64, ScopeType), a: Analysis)
    requires
        table_wf(a.table),
    ensures
        block_run(ss, i, tr, a) matches Some((_, a2, _)) ==> table_wf(a2.table),
    decreases ss, ss.len() - i,
{
    if 0 <= i < ss.len() {
        lemma_stmt_wf(ss[i], tr, a);
        match stmt_run(ss[i], tr, a) {
            Some((false, a2, t2)) => lemma_block_wf(ss, i + 1, t2, a2),
            _ => {},
        }
    }
}

proof fn lemma_args_wf(args: Seq<Expression>, i: int, scope: ScopeType, a: Analysis)
    requires
        table_wf(a.table),
    ensures
        args_run(args, i, scope, a) matches Some((_, a2)) ==> table_wf(a2.table),
    decreases args.len() - i,
{
    if 0 <= i < args.len() {
        lemma_declare_var_wf(arg_of(args[i]).0, arg_of(args[i]).1, scope, a);
        match declare_var(arg_of(args[i]).0, arg_of(args[i]).1, scope, a) {
            Some((false, a2)) => lemma_args_wf(args, i + 1, scope, a2),
            _ => {},
        }
    }
}

proof fn lemma_header_wf(comp: Component, tr: (u64, ScopeType), a: Analysis)
    requires
        table_wf(a.table),
    ensures
        header_run(comp, tr, a) matches Some((_, a2)) ==> table_wf(a2.table),
{
    match comp.data {
        Cmpnt::FunctionHeader { name, args, returns: return_types } => if a.gid != usize::MAX {
            let types = args@.map_values(|e: Expression| arg_of(e).0);
            let f = DeclView { scope: ScopeType::Global, arg_types: types, types: return_types@, id: a.gid };
            lemma_table_add_wf(a.table, IdentKey::Function(name@, types, FunctionType::LeBlanc), f);
            match table_add(a.table, IdentKey::Function(name@, types, FunctionType::LeBlanc), f) {
                Some(tb) => lemma_args_wf(
                    args@,
                    0,
                    tr.1,
                    Analysis { table: tb, vid: 0, gid: (a.gid + 1) as usize },
                ),
                None => {},
            }
        },
        _ => {},
    }
}

proof fn lemma_components_wf(cs: Seq<Component>, i: int, tr: (u64, ScopeType), a: Analysis)
    requires
        table_wf(a.table),
    ensures
        components_run(cs, i, tr, a) matches Some(a2) ==> table_wf(a2.table),
    decreases cs.len() - i,
{
    if 0 <= i < cs.len() {
        match cs[i].data {
            Cmpnt::Function { header, body, .. } => if tr.0 != u64::MAX {
                let child = (tr.0, ScopeType::Local(tr.0, Box::new(tr.1)));
                lemma_header_wf(*header, child, a);
                match header_run(*header, child, a) {
                    Some((_, a1)) => {
                        lemma_stmt_wf(body, child, a1);
                        match stmt_run(body, child, a1) {
                            Some((_, a2, _)) => lemma_components_wf(cs, i + 1, ((tr.0 + 1) as u64, tr.1), a2),
                            None => {},
                        }
                    },
                    None => {},
                }
            },
            _ => lemma_components_wf(cs, i + 1, tr, a),
        }
    }
}

/// Every table is well formed and no module name appears twice.
pub open spec fn tables_wf(out: Seq<(Seq<char>, Seq<(IdentKey, Seq<DeclView>)>)>) -> bool {
    &&& forall|i: int| 0 <= i < out.len() ==> table_wf(#[trigger] out[i].1)
    &&& forall|i: int, j: int| 0 <= i < j < out.len() ==> (#[trigger] out[i]).0 != (#[trigger] out[j]).0
}

proof fn lemma_place_wf(out: Seq<(Seq<char>, Seq<(IdentKey, Seq<DeclView>)>)>, name: Seq<char>, t: Seq<(IdentKey, Seq<DeclView>)>)
    requires
        tables_wf(out),
        table_wf(t),
    ensures
        tables_wf(place(out, name, t)),
{
    lemma_name_index(out, name);
    let r = place(out, name, t);
    match name_index(out, name) {
        Some(j0) => {
            assert forall|i: int| 0 <= i < r.len() implies table_wf(#[trigger] r[i].1) by {
                if i != j0 {
                    assert(r[i] == out[i]);
                }
            }
            assert forall|i: int, j: int| 0 <= i < j < r.len() implies (#[trigger] r[i]).0 != (#[trigger] r[j]).0 by {
                assert(r[i].0 == out[i].0 && r[j].0 == out[j].0);
            }
        },
        None => {
            assert forall|i: int| 0 <= i < r.len() implies table_wf(#[trigger] r[i].1) by {
                if i < out.len() {
                    assert(r[i] == out[i]);
                }
            }
            assert forall|i: int, j: int| 0 <= i < j < r.len() implies (#[trigger] r[i]).0 != (#[trigger] r[j]).0 by {
                assert(r[i] == out[i]);
                if j < out.len() {
                    assert(r[j] == out[j]);
                }
            }
        },
    }
}

proof fn lemma_modules_wf(
    mods: Seq<CompiledImport>,
    i: int,
    out: Seq<(Seq<char>, Seq<(IdentKey, Seq<DeclView>)>)>,
    vid: usize,
    gid: usize,
)
    requires
        tables_wf(out),
    ensures
        modules_run(mods, i, out, vid, gid) matches Some(r) ==> tables_wf(r),
    decreases mods.len() - i,
{
    if 0 <= i < mods.len() {
        let start = Analysis { table: Seq::empty(), vid, gid };
        lemma_components_wf(mods[i].components@, 0, (0u64, ScopeType::Global), start);
        match components_run(mods[i].components@, 0, (0u64, ScopeType::Global), start) {
            Some(a) => {
                lemma_place_wf(out, mods[i].name@, a.table);
                lemma_modules_wf(mods, i + 1, place(out, mods[i].name@, a.table), a.vid, a.gid);
            },
            None => {},
        }
    }
}

/// The declaration analysis never records a clash: in every table it produces, no
/// declaration of a name is visible from the scope of a later declaration of the same
/// name; each name has one entry, with at least one declaration, and names a variable or
/// a function written in LeBlanc; and each module name has one table.
pub proof fn declarations_never_clash(mods: Seq<CompiledImport>, builtins: usize)
    requires
        analysis_run(mods, builtins) is Some,
    ensures
        tables_wf(analysis_run(mods, builtins).unwrap()),
{
    lemma_modules_wf(mods, 0, Seq::empty(), 0, builtins);
}

proof fn lemma_group_items_own(g: Seq<(IdentStore, ScopeSet)>)
    requires
        forall|b: int| 0 <= b < g.len() ==> own_key((#[trigger] g[b]).0@),
    ensures
        forall|j: int| 0 <= j < group_items(g).len() ==> (#[trigger] group_items(g)[j]).0 == FunctionType::LeBlanc,
    decreases g.len(),
{
    if g.len() > 0 {
        lemma_group_items_own(g.drop_last());
        assert(own_key(g[g.len() - 1].0@));
    }
}

proof fn lemma_flat_items_own(groups: Seq<(String, Vec<(IdentStore, ScopeSet)>)>)
    requires
        forall|a: int, b: int| 0 <= a < groups.len() && 0 <= b < groups[a].1@.len() ==> own_key(
            (#[trigger] groups[a].1@[b]).0@,
        ),
    ensures
        forall|j: int| 0 <= j < flat_items(groups).len() ==> (#[trigger] flat_items(groups)[j]).0
            == FunctionType::LeBlanc,
    decreases groups.len(),
{
    if groups.len() > 0 {
        let last = groups.len() - 1;
        assert forall|b: int| 0 <= b < groups[last].1@.len() implies own_key((#[trigger] groups[last].1@[b]).0@) by {
            assert(own_key(groups[last].1@[b].0@));
        }
        lemma_group_items_own(groups[last].1@);
        lemma_flat_items_own(groups.drop_last());
        assert forall|a: int, b: int| 0 <= a < groups.drop_last().len() && 0 <= b < groups.drop_last()[a].1@.len()
            implies own_key((#[trigger] groups.drop_last()[a].1@[b]).0@) by {
            assert(groups.drop_last()[a] == groups[a]);
        }
    }
}

proof fn lemma_no_linked(items: Seq<(FunctionType, usize)>, k: int)
    requires
        0 <= k <= items.len(),
        forall|j: int| 0 <= j < items.len() ==> (#[trigger] items[j]).0 == FunctionType::LeBlanc,
    ensures
        linked_count(items, k) == 0,
    decreases k,
{
    if k > 0 {
        lemma_no_linked(items, k - 1);
    }
}

proof fn lemma_max_id_nonneg(items: Seq<(FunctionType, usize)>)
    ensures
        max_id(items) >= 0,
    decreases items.len(),
{
    if items.len() > 0 {
        lemma_max_id_nonneg(items.drop_last());
    }
}

/// Well-formed tables meet what `sort_functions` asks of its input.
proof fn lemma_sortable(r: Seq<(String, Vec<(IdentStore, ScopeSet)>)>)
    requires
        tables_wf(groups_view(r)),
    ensures
        functions_declared(r),
        linked_count(flat_items(r), flat_items(r).len() as int) <= max_id(flat_items(r)),
{
    let gv = groups_view(r);
    assert forall|a: int, b: int| 0 <= a < r.len() && 0 <= b < r[a].1@.len() implies own_key(
        (#[trigger] r[a].1@[b]).0@,
    ) && r[a].1@[b].1.values().len() > 0 by {
        assert(gv[a].1 == table_view(r[a].1@));
        assert(table_wf(gv[a].1));
        assert(table_view(r[a].1@)[b] == (r[a].1@[b].0@, r[a].1@[b].1.decls()));
        assert(gv[a].1[b].1.len() > 0 && own_key(gv[a].1[b].0));
    }
    lemma_flat_items_own(r);
    lemma_no_linked(flat_items(r), flat_items(r).len() as int);
    lemma_max_id_nonneg(flat_items(r));
}

} // verus!
