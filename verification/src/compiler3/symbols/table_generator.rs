//! Fills combined symbol tables from the syntax tree: a function opens a table for its
//! body and is recorded with its arguments; a loop opens a table; names are recorded in
//! the table they are written in.
use vstd::prelude::*;
use crate::compiler3::leblanc_type::{LBType, has_bytecode_type, spec_lb_type_of};
use crate::compiler3::symbols::converted::FunctionArg;
use crate::compiler3::symbols::cst::{
    CSymView,
    CombinedSymbol,
    CombinedSymbolTables,
    CstModel,
    Scope,
    SymbolType,
    add_sym,
    lemma_top_in,
    open_sub,
    sym_view,
    subs_view,
    top,
};
use crate::compiler::parser::ast::{
    Cmpnt,
    Component,
    Expr,
    Expression,
    Id,
    Ident,
    Location,
    Statement,
    Stmnt,
    resolvable,
    spec_resolve,
};
use crate::native_types::LeBlancType;

verus! {

/// The symbol a name written in table `t` is recorded as: unique exactly when its type is
/// known.
pub open spec fn name_symbol(m: CstModel, t: int, name: Seq<char>, loc: Location, typ: Option<LBType>) -> CSymView {
    CSymView {
        name: name,
        stype: SymbolType::Standard,
        typ: typ,
        subsymbols: Seq::empty(),
        location: Some(loc),
        unique: typ is Some,
        scope: Scope::Local(m.tables[t].level),
        linked: None,
    }
}

/// The model with a table opened in table `t`.
pub open spec fn with_sub(m: CstModel, t: int) -> CstModel {
    CstModel { tables: open_sub(m.tables, t), ..m }
}

/// The tables after a name is scanned in table `t`: a plain name is recorded there; the
/// object or enum of a dotted name is scanned there, and its attribute or variant in a
/// table opened in it. `None` where a table would be opened below the deepest level.
pub open spec fn scanned_ident(m: CstModel, t: int, id: Ident, typ: Option<LBType>) -> Option<CstModel>
    decreases id,
{
    match id.data {
        Id::Ident { ident } => Some(
            CstModel { tables: add_sym(m.tables, t, name_symbol(m, t, ident@, id.location, typ)), ..m },
        ),
        Id::ObjIdent { ident, attr } => match scanned_ident(m, t, *ident, typ) {
            Some(m1) => if m1.tables[t].level < u16::MAX {
                scanned_ident(with_sub(m1, t), m1.tables.len() as int, *attr, None)
            } else {
                None
            },
            None => None,
        },
        Id::EnumIdent { ident, kind } => match scanned_ident(m, t, *ident, typ) {
            Some(m1) => if m1.tables[t].level < u16::MAX {
                scanned_ident(with_sub(m1, t), m1.tables.len() as int, *kind, None)
            } else {
                None
            },
            None => None,
        },
        Id::TypedListIdent { .. } => Some(m),
    }
}

/// The tables after the names `ids` are scanned in table `t`, in order, with no type.
pub open spec fn scanned_idents(m: CstModel, t: int, ids: Seq<Ident>) -> Option<CstModel>
    decreases ids.len(),
{
    if ids.len() == 0 {
        Some(m)
    } else {
        match scanned_ident(m, t, ids[0], None) {
            Some(m1) => scanned_idents(m1, t, ids.subrange(1, ids.len() as int)),
            None => None,
        }
    }
}

/// The tables after an expression is scanned in table `t`: a static call scans its
/// callee there and its arguments in a table opened for them; a typed assignment scans
/// its value, then its targets; a plain assignment scans its value, then its names in a
/// table opened for them; a typed variable records its name with its type; a name is
/// recorded; other expressions add nothing.
pub open spec fn scanned_expr(m: CstModel, t: int, e: Expression) -> Option<CstModel>
    decreases e, 1int,
{
    match e.data {
        Expr::StaticMethodCall { method_name, args } => match scanned_expr(m, t, *method_name) {
            Some(m1) => if m1.tables[t].level < u16::MAX {
                scanned_exprs(with_sub(m1, t), m1.tables.len() as int, args@)
            } else {
                None
            },
            None => None,
        },
        Expr::TypedAssignment { idents, expr } => match expr {
            Some(x) => match scanned_expr(m, t, *x) {
                Some(m1) => scanned_exprs(m1, t, idents@),
                None => None,
            },
            None => scanned_exprs(m, t, idents@),
        },
        Expr::NormalAssignment { idents, expr } => match scanned_expr(m, t, *expr) {
            Some(m1) => if m1.tables[t].level < u16::MAX {
                scanned_idents(with_sub(m1, t), m1.tables.len() as int, idents@)
            } else {
                None
            },
            None => None,
        },
        Expr::TypedVariable { typing, variable } => if has_bytecode_type(typing) {
            scanned_ident(m, t, variable, Some(spec_lb_type_of(typing)))
        } else {
            None
        },
        Expr::Ident { ident } => scanned_ident(m, t, ident, None),
        _ => Some(m),
    }
}

/// The tables after the expressions `es` are scanned in table `t`, in order.
pub open spec fn scanned_exprs(m: CstModel, t: int, es: Seq<Expression>) -> Option<CstModel>
    decreases es, 0int,
{
    if es.len() == 0 {
        Some(m)
    } else {
        match scanned_expr(m, t, es[0]) {
            Some(m1) => scanned_exprs(m1, t, es.subrange(1, es.len() as int)),
            None => None,
        }
    }
}

/// The symbol of a loop: not unique, global, linked to the table opened for its body.
pub open spec fn loop_symbol(loc: Location, sub: int) -> CSymView {
    CSymView {
        name: "While"@,
        stype: SymbolType::Standard,
        typ: None,
        subsymbols: Seq::empty(),
        location: Some(loc),
        unique: false,
        scope: Scope::Global,
        linked: Some(sub as usize),
    }
}

/// The tables after a statement is scanned in table `t`: a global statement is scanned
/// in the outermost table; a block statement by statement; a line as its expression; a
/// loop opens a table, is recorded, and has its body scanned in the new table; other
/// statements add nothing.
pub open spec fn scanned_stmt(m: CstModel, t: int, s: Statement) -> Option<CstModel>
    decreases s, 1int,
{
    match s.data {
        Stmnt::Global { statement } => scanned_stmt(m, top(m.tables, t), *statement),
        Stmnt::Block { statements } => scanned_stmts(m, t, statements@),
        Stmnt::Line { expr } => scanned_expr(m, t, expr),
        Stmnt::While { condition, statement } => if m.tables[t].level < u16::MAX {
            let sub = m.tables.len() as int;
            scanned_stmt(
                CstModel { tables: add_sym(open_sub(m.tables, t), t, loop_symbol(s.location, sub)), ..m },
                sub,
                *statement,
            )
        } else {
            None
        },
        _ => Some(m),
    }
}

/// The tables after the statements `ss` are scanned in table `t`, in order.
pub open spec fn scanned_stmts(m: CstModel, t: int, ss: Seq<Statement>) -> Option<CstModel>
    decreases ss, 0int,
{
    if ss.len() == 0 {
        Some(m)
    } else {
        match scanned_stmt(m, t, ss[0]) {
            Some(m1) => scanned_stmts(m1, t, ss.subrange(1, ss.len() as int)),
            None => None,
        }
    }
}

/// An argument of a function header that a symbol can be made of: a typed name, made
/// of identifiers, of a type with a bytecode type.
pub open spec fn arg_ok(e: Expression) -> bool {
    e.data matches Expr::TypedVariable { typing, variable } && resolvable(variable) && has_bytecode_type(typing)
}

/// The symbol of a function argument, in the scope of the function's table.
pub open spec fn arg_symbol(e: Expression, scope: Scope) -> CSymView {
    let (name, typ) = match e.data {
        Expr::TypedVariable { typing, variable } => (spec_resolve(variable), Some(spec_lb_type_of(typing))),
        _ => (Seq::empty(), None),
    };
    CSymView {
        name: name,
        stype: SymbolType::Standard,
        typ: typ,
        subsymbols: Seq::empty(),
        location: Some(e.location),
        unique: true,
        scope: scope,
        linked: None,
    }
}

/// The symbol of a function: unique, in the intermediate scope, numbered by the counter,
/// typed by its first return type, with its arguments, linked to its body's table.
pub open spec fn function_symbol(
    name: Seq<char>,
    args: Seq<Expression>,
    return_types: Seq<LeBlancType>,
    loc: Location,
    scope: Scope,
    counter: u64,
    sub: int,
) -> CSymView {
    CSymView {
        name: name,
        stype: SymbolType::Function(counter),
        typ: if return_types.len() > 0 {
            Some(spec_lb_type_of(return_types[0]))
        } else {
            None
        },
        subsymbols: args.map_values(|a: Expression| arg_symbol(a, scope)),
        location: Some(loc),
        unique: true,
        scope: Scope::Intermediate,
        linked: Some(sub as usize),
    }
}

/// The counter after one more function: it wraps at the largest value.
pub open spec fn next_count(c: u64) -> u64 {
    if c == u64::MAX {
        0
    } else {
        (c + 1) as u64
    }
}

/// Whether a header's arguments and return types can all be recorded.
pub open spec fn header_ok(args: Seq<Expression>, return_types: Seq<LeBlancType>) -> bool {
    &&& forall|i: int| 0 <= i < args.len() ==> arg_ok(#[trigger] args[i])
    &&& return_types.len() > 0 ==> has_bytecode_type(return_types[0])
}

/// The tables after a component is scanned in table `t`: a function opens a table for
/// its body, is recorded with the next number of the counter, and has its body scanned
/// in the new table; other components add nothing. `None` where the function has no
/// header or an argument or return type that cannot be recorded.
pub open spec fn scanned_component(m: CstModel, t: int, c: Component) -> Option<CstModel> {
    match c.data {
        Cmpnt::Function { header, body, tags } => match header.data {
            Cmpnt::FunctionHeader { name, args, returns: return_types } => if m.tables[t].level < u16::MAX
                && header_ok(args@, return_types@) {
                let sub = m.tables.len() as int;
                let f = function_symbol(
                    name@,
                    args@,
                    return_types@,
                    c.location,
                    Scope::Local(m.tables[t].level),
                    m.func_counter,
                    sub,
                );
                scanned_stmt(
                    CstModel {
                        tables: add_sym(open_sub(m.tables, t), t, f),
                        func_counter: next_count(m.func_counter),
                    },
                    sub,
                    body,
                )
            } else {
                None
            },
            _ => None,
        },
        _ => Some(m),
    }
}

/// The tables after the components `cs` are scanned in table `t`, in order.
pub open spec fn scanned_components(m: CstModel, t: int, cs: Seq<Component>) -> Option<CstModel>
    decreases cs.len(),
{
    if cs.len() == 0 {
        Some(m)
    } else {
        match scanned_component(m, t, cs[0]) {
            Some(m1) => scanned_components(m1, t, cs.subrange(1, cs.len() as int)),
            None => None,
        }
    }
}

/// Scans a name in table `t`, with the type it is declared with, if any.
pub fn scan_ident(ident: &Ident, tables: &mut CombinedSymbolTables, t: usize, typ: Option<LBType>)
    requires
        old(tables).wf(),
        t < old(tables)@.tables.len(),
        scanned_ident(old(tables)@, t as int, *ident, typ) is Some,
    ensures
        final(tables).wf(),
        final(tables)@ == scanned_ident(old(tables)@, t as int, *ident, typ)->0,
        final(tables)@.tables.len() >= old(tables)@.tables.len(),
    decreases *ident,
{
    let location = Some(ident.location);
    let level = tables.tables[t].level;
    assert(level == tables@.tables[t as int].level);
    let unique = typ.is_some();
    match &ident.data {
        Id::Ident { ident: name } => {
            let symbol = CombinedSymbol {
                name: name.clone(),
                stype: SymbolType::Standard,
                typ,
                subsymbols: Vec::new(),
                location,
                unique,
                scope: Scope::Local(level),
                linked: None,
            };
            assert(subs_view(symbol.subsymbols@) =~= Seq::<CSymView>::empty());
            assert(sym_view(symbol) == name_symbol(tables@, t as int, name@, ident.location, typ));
            tables.add_symbol(t, symbol);
        },
        Id::ObjIdent { ident: object, attr } => {
            scan_ident(object, tables, t, typ);
            let sub = tables.create_sub_table(t);
            scan_ident(attr, tables, sub, None);
        },
        Id::EnumIdent { ident: object, kind } => {
            scan_ident(object, tables, t, typ);
            let sub = tables.create_sub_table(t);
            scan_ident(kind, tables, sub, None);
        },
        Id::TypedListIdent { .. } => {},
    }
}

/// Scans names in table `t`, in order, with no type.
fn scan_idents(ids: &Vec<Ident>, tables: &mut CombinedSymbolTables, t: usize)
    requires
        old(tables).wf(),
        t < old(tables)@.tables.len(),
        scanned_idents(old(tables)@, t as int, ids@) is Some,
    ensures
        final(tables).wf(),
        final(tables)@ == scanned_idents(old(tables)@, t as int, ids@)->0,
        final(tables)@.tables.len() >= old(tables)@.tables.len(),
{
    let ghost m0 = tables@;
    let mut i: usize = 0;
    assert(ids@.subrange(0, ids@.len() as int) =~= ids@);
    while i < ids.len()
        invariant
            tables.wf(),
            t < tables@.tables.len(),
            i <= ids@.len(),
            tables@.tables.len() >= m0.tables.len(),
            scanned_idents(m0, t as int, ids@) == scanned_idents(
                tables@,
                t as int,
                ids@.subrange(i as int, ids@.len() as int),
            ),
            scanned_idents(m0, t as int, ids@) is Some,
        decreases ids@.len() - i,
    {
        let ghost rest = ids@.subrange(i as int, ids@.len() as int);
        assert(rest[0] == ids@[i as int]);
        assert(rest.subrange(1, rest.len() as int) =~= ids@.subrange(i + 1, ids@.len() as int));
        scan_ident(&ids[i], tables, t, None);
        i = i + 1;
    }
}

/// Scans an expression in table `t`.
pub fn scan_expression(expression: &Expression, tables: &mut CombinedSymbolTables, t: usize)
    requires
        old(tables).wf(),
        t < old(tables)@.tables.len(),
        scanned_expr(old(tables)@, t as int, *expression) is Some,
    ensures
        final(tables).wf(),
        final(tables)@ == scanned_expr(old(tables)@, t as int, *expression)->0,
        final(tables)@.tables.len() >= old(tables)@.tables.len(),
    decreases *expression, 1int,
{
    match &expression.data {
        Expr::StaticMethodCall { method_name, args } => {
            scan_expression(method_name, tables, t);
            let sub = tables.create_sub_table(t);
            scan_expressions(args, tables, sub);
        },
        Expr::TypedAssignment { idents, expr } => {
            match expr {
                Some(x) => scan_expression(x, tables, t),
                None => {},
            }
            scan_expressions(idents, tables, t);
        },
        Expr::NormalAssignment { idents, expr } => {
            scan_expression(expr, tables, t);
            let sub = tables.create_sub_table(t);
            scan_idents(idents, tables, sub);
        },
        Expr::TypedVariable { typing, variable } => {
            scan_ident(variable, tables, t, Some(LBType::from(*typing)));
        },
        Expr::Ident { ident } => {
            scan_ident(ident, tables, t, None);
        },
        _ => {},
    }
}

/// Scans expressions in table `t`, in order.
fn scan_expressions(es: &Vec<Expression>, tables: &mut CombinedSymbolTables, t: usize)
    requires
        old(tables).wf(),
        t < old(tables)@.tables.len(),
        scanned_exprs(old(tables)@, t as int, es@) is Some,
    ensures
        final(tables).wf(),
        final(tables)@ == scanned_exprs(old(tables)@, t as int, es@)->0,
        final(tables)@.tables.len() >= old(tables)@.tables.len(),
    decreases es, 0int,
{
    let ghost m0 = tables@;
    let mut i: usize = 0;
    assert(es@.subrange(0, es@.len() as int) =~= es@);
    while i < es.len()
        invariant
            tables.wf(),
            t < tables@.tables.len(),
            i <= es@.len(),
            tables@.tables.len() >= m0.tables.len(),
            scanned_exprs(m0, t as int, es@) == scanned_exprs(
                tables@,
                t as int,
                es@.subrange(i as int, es@.len() as int),
            ),
            scanned_exprs(m0, t as int, es@) is Some,
        decreases es@.len() - i,
    {
        let ghost rest = es@.subrange(i as int, es@.len() as int);
        assert(rest[0] == es@[i as int]);
        assert(rest.subrange(1, rest.len() as int) =~= es@.subrange(i + 1, es@.len() as int));
        assert(decreases_to!(es => es@[i as int]));
        scan_expression(&es[i], tables, t);
        i = i + 1;
    }
}

/// Scans a statement in table `t`.
pub fn scan_statement(statement: &Statement, tables: &mut CombinedSymbolTables, t: usize)
    requires
        old(tables).wf(),
        t < old(tables)@.tables.len(),
        scanned_stmt(old(tables)@, t as int, *statement) is Some,
    ensures
        final(tables).wf(),
        final(tables)@ == scanned_stmt(old(tables)@, t as int, *statement)->0,
        final(tables)@.tables.len() >= old(tables)@.tables.len(),
    decreases *statement, 1int,
{
    match &statement.data {
        Stmnt::Global { statement: inner } => {
            let parent = tables.get_highest_table(t);
            proof {
                lemma_top_in(tables@.tables, t as int);
            }
            scan_statement(inner, tables, parent);
        },
        Stmnt::Block { statements } => {
            scan_statements(statements, tables, t);
        },
        Stmnt::Line { expr } => {
            scan_expression(expr, tables, t);
        },
        Stmnt::While { condition: _, statement: body } => {
            let sub = tables.create_sub_table(t);
            let symbol = CombinedSymbol {
                name: String::from_str("While"),
                stype: SymbolType::Standard,
                typ: None,
                subsymbols: Vec::new(),
                location: Some(statement.location),
                unique: false,
                scope: Scope::Global,
                linked: Some(sub),
            };
            proof {
                reveal_strlit("While");
                assert(subs_view(symbol.subsymbols@) =~= Seq::<CSymView>::empty());
                assert(sym_view(symbol) == loop_symbol(statement.location, sub as int));
            }
            tables.add_symbol(t, symbol);
            scan_statement(body, tables, sub);
        },
        _ => {},
    }
}

/// Scans statements in table `t`, in order.
fn scan_statements(ss: &Vec<Statement>, tables: &mut CombinedSymbolTables, t: usize)
    requires
        old(tables).wf(),
        t < old(tables)@.tables.len(),
        scanned_stmts(old(tables)@, t as int, ss@) is Some,
    ensures
        final(tables).wf(),
        final(tables)@ == scanned_stmts(old(tables)@, t as int, ss@)->0,
        final(tables)@.tables.len() >= old(tables)@.tables.len(),
    decreases ss, 0int,
{
    let ghost m0 = tables@;
    let mut i: usize = 0;
    assert(ss@.subrange(0, ss@.len() as int) =~= ss@);
    while i < ss.len()
        invariant
            tables.wf(),
            t < tables@.tables.len(),
            i <= ss@.len(),
            tables@.tables.len() >= m0.tables.len(),
            scanned_stmts(m0, t as int, ss@) == scanned_stmts(
                tables@,
                t as int,
                ss@.subrange(i as int, ss@.len() as int),
            ),
            scanned_stmts(m0, t as int, ss@) is Some,
        decreases ss@.len() - i,
    {
        let ghost rest = ss@.subrange(i as int, ss@.len() as int);
        assert(rest[0] == ss@[i as int]);
        assert(rest.subrange(1, rest.len() as int) =~= ss@.subrange(i + 1, ss@.len() as int));
        assert(decreases_to!(ss => ss@[i as int]));
        scan_statement(&ss[i], tables, t);
        i = i + 1;
    }
}

/// Scans a component in table `t`.
pub fn scan_component(component: Component, tables: &mut CombinedSymbolTables, t: usize)
    requires
        old(tables).wf(),
        t < old(tables)@.tables.len(),
        scanned_component(old(tables)@, t as int, component) is Some,
    ensures
        final(tables).wf(),
        final(tables)@ == scanned_component(old(tables)@, t as int, component)->0,
        final(tables)@.tables.len() >= old(tables)@.tables.len(),
{
    let ghost c0 = component;
    let location = component.location;
    match component.data {
        Cmpnt::Function { header, body, tags: _ } => {
            match header.data {
                Cmpnt::FunctionHeader { name, args, returns: return_types } => {
                    let ghost m0 = tables@;
                    let ghost args0 = args@;
                    let sub = tables.create_sub_table(t);
                    let level = tables.tables[t].level;
                    assert(level == m0.tables[t as int].level);
                    let counter = tables.func_counter;
                    tables.func_counter = if counter == u64::MAX {
                        0
                    } else {
                        counter + 1
                    };
                    let scope = Scope::Local(level);
                    let mut args = args;
                    let mut subsymbols: Vec<CombinedSymbol> = Vec::new();
                    let ghost mut i: int = 0;
                    while args.len() > 0
                        invariant
                            0 <= i <= args0.len(),
                            args@ == args0.subrange(i, args0.len() as int),
                            header_ok(args0, return_types@),
                            subs_view(subsymbols@) == args0.subrange(0, i).map_values(
                                |a: Expression| arg_symbol(a, scope),
                            ),
                        decreases args@.len(),
                    {
                        let a = args.remove(0);
                        assert(a == args0[i]);
                        assert(arg_ok(args0[i]));
                        let arg = FunctionArg::from(a);
                        let symbol = CombinedSymbol {
                            name: arg.name,
                            stype: SymbolType::Standard,
                            typ: Some(arg.typing),
                            subsymbols: Vec::new(),
                            location: Some(arg.location),
                            unique: true,
                            scope,
                            linked: None,
                        };
                        let ghost before = subsymbols@;
                        assert(subs_view(symbol.subsymbols@) =~= Seq::<CSymView>::empty());
                        assert(sym_view(symbol) == arg_symbol(args0[i], scope));
                        subsymbols.push(symbol);
                        proof {
                            crate::compiler3::symbols::cst::lemma_subs_view_push(before, symbol);
                            assert(args0.subrange(0, i + 1).map_values(|a: Expression| arg_symbol(a, scope))
                                =~= args0.subrange(0, i).map_values(|a: Expression| arg_symbol(a, scope)).push(
                                arg_symbol(args0[i], scope),
                            ));
                            i = i + 1;
                        }
                    }
                    let typ = if return_types.len() > 0 {
                        Some(LBType::from(return_types[0]))
                    } else {
                        None
                    };
                    let func_symbol = CombinedSymbol {
                        name,
                        stype: SymbolType::Function(counter),
                        typ,
                        subsymbols,
                        location: Some(location),
                        unique: true,
                        scope: Scope::Intermediate,
                        linked: Some(sub),
                    };
                    proof {
                        assert(args0.subrange(0, i) =~= args0);
                        assert(sym_view(func_symbol) == function_symbol(
                            func_symbol.name@,
                            args0,
                            return_types@,
                            location,
                            scope,
                            counter,
                            sub as int,
                        ));
                    }
                    tables.add_symbol(t, func_symbol);
                    scan_statement(&body, tables, sub);
                },
                _ => {},
            }
        },
        _ => {},
    }
}

/// Where a scan of a program starts: the tables given, or a single empty table.
pub open spec fn start_model(old_table: Option<CombinedSymbolTables>) -> CstModel {
    match old_table {
        Some(tb) => tb@,
        None => CstModel {
            tables: seq![
                crate::compiler3::symbols::cst::CTableModel {
                    symbols: Seq::empty(),
                    subtables: Seq::empty(),
                    parent: None,
                    level: 0,
                },
            ],
            func_counter: 0,
        },
    }
}

/// Scans the components of a program into the outermost of the tables given, or of a new
/// table, and gives the tables.
pub fn generate_symbol_table(components: Vec<Component>, old_table: Option<CombinedSymbolTables>) -> (r: CombinedSymbolTables)
    requires
        old_table matches Some(tb) ==> tb.wf(),
        scanned_components(start_model(old_table), 0, components@) is Some,
    ensures
        r.wf(),
        r@ == scanned_components(start_model(old_table), 0, components@)->0,
{
    let ghost start = start_model(old_table);
    let ghost cs = components@;
    let mut tables = match old_table {
        Some(tb) => tb,
        None => CombinedSymbolTables::new(),
    };
    let mut components = components;
    let ghost mut i: int = 0;
    while components.len() > 0
        invariant
            tables.wf(),
            0 <= i <= cs.len(),
            components@ == cs.subrange(i, cs.len() as int),
            scanned_components(start, 0, cs) == scanned_components(tables@, 0, components@),
            scanned_components(start, 0, cs) is Some,
        decreases components@.len(),
    {
        let ghost rest = components@;
        let c = components.remove(0);
        assert(rest.subrange(1, rest.len() as int) =~= components@);
        scan_component(c, &mut tables, 0);
        proof {
            i = i + 1;
        }
    }
    tables
}

} // verus!
