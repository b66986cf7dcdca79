use leblanc::compiler3::leblanc_type::LBType;
use leblanc::compiler3::symbols::cst::{CombinedSymbolTables, Scope as CstScope, SymbolType as CstSymbolType};
use leblanc::compiler3::symbols::table_generator::{generate_symbol_table, scan_component, scan_ident};
use leblanc::compiler::parser::ast::{Cmpnt, Component, Const, Expr, Expression, Id, Ident, Located, Stmnt};
use leblanc::native_types::LeBlancType;
use leblanc::compiler3::symbols::symbol_table::{Scope, Symbol, SymbolTables, SymbolType, TableIntention};

fn sym(name: &str, typ: Option<LBType>) -> Symbol {
    Symbol { name: name.to_string(), form: SymbolType::Ident, scope: Scope::Local(3), typ, location: None, instruction: 0 }
}

#[test]
fn a_new_forest_has_one_outermost_table() {
    let f = SymbolTables::new();
    assert_eq!(f.tables.len(), 1);
    assert_eq!(f.tables[0].parent, None);
    assert_eq!(f.tables[0].level, 0);
    assert_eq!(f.tables[0].intention, TableIntention::NoIntention);
    assert_eq!(f.func_counter, 0);
    assert_eq!(f.class_counter, 1);
}

#[test]
fn sub_tables_are_one_level_down() {
    let mut f = SymbolTables::new();
    let a = f.create_sub_table(0);
    let b = f.create_sub_table(a);
    assert_eq!((a, b), (1, 2));
    assert_eq!(f.tables[b].level, 2);
    assert_eq!(f.tables[b].parent, Some(a));
    assert_eq!(f.tables[0].linked, vec![1]);
    assert_eq!(f.tables[a].linked, vec![2]);
    assert_eq!(f.get_highest_table(b), 0);
}

#[test]
fn symbols_in_the_outermost_table_are_global() {
    let mut f = SymbolTables::new();
    f.add_symbol(0, sym("x", Some(LBType::Int)));
    assert_eq!(f.tables[0].symbols[0].scope, Scope::Global);
    let a = f.create_sub_table(0);
    f.add_symbol(a, sym("y", None));
    assert_eq!(f.tables[a].symbols[0].scope, Scope::Local(3));
}

#[test]
fn a_symbol_goes_to_the_tables_opened_in_its_table() {
    let mut f = SymbolTables::new();
    let a = f.create_sub_table(0);
    let b = f.create_sub_table(a);
    f.add_symbol(0, sym("x", None));
    assert_eq!(f.tables[a].symbols.len(), 1);
    assert_eq!(f.tables[b].symbols.len(), 0);
    assert!(f.check_existence(b, &sym("x", None)));
    assert!(!f.check_existence(b, &sym("x", Some(LBType::Int))));
    assert!(!f.check_existence(0, &sym("z", None)));
}

#[test]
fn a_symbol_of_an_inner_table_is_not_seen_outside() {
    let mut f = SymbolTables::new();
    let a = f.create_sub_table(0);
    f.add_symbol(a, sym("v", None));
    assert!(f.check_existence(a, &sym("v", None)));
    assert!(!f.check_existence(0, &sym("v", None)));
}

#[test]
fn generic_symbols_stay_in_their_table() {
    let mut f = SymbolTables::new();
    let a = f.create_sub_table(0);
    let b = f.create_sub_table(a);
    f.add_generic_symbol(a, "e".to_string(), 7, None);
    let s = &f.tables[a].symbols[0];
    assert_eq!(s.form, SymbolType::Expression);
    assert_eq!(s.scope, Scope::Local(1));
    assert_eq!(s.instruction, 7);
    assert!(f.tables[b].symbols.is_empty());
}

#[test]
fn intentions_are_recorded() {
    let mut f = SymbolTables::new();
    f.set_intention(0, TableIntention::MethodCall);
    assert_eq!(f.tables[0].intention, TableIntention::MethodCall);
}

fn csym(name: &str, unique: bool, scope: leblanc::compiler3::symbols::cst::Scope, line: usize) -> leblanc::compiler3::symbols::cst::CombinedSymbol {
    leblanc::compiler3::symbols::cst::CombinedSymbol {
        name: name.to_string(),
        stype: leblanc::compiler3::symbols::cst::SymbolType::Standard,
        typ: Some(LBType::Int),
        subsymbols: vec![],
        location: Some(leblanc::compiler::parser::ast::Location {
            file: leblanc::rustblanc::ZCPath("f.lb"),
            byte_pos: (0, 1),
            line,
            symbol: 1,
        }),
        unique,
        scope,
        linked: None,
    }
}

#[test]
fn combined_symbols_scan_by_strategy() {
    let a = csym("x", true, leblanc::compiler3::symbols::cst::Scope::Global, 1);
    let b = csym("x", false, leblanc::compiler3::symbols::cst::Scope::Local(2), 7);
    assert!(a.scan(&b, leblanc::compiler3::symbols::cst::Strategy::LAZY));
    assert!(a.scan(&b, leblanc::compiler3::symbols::cst::Strategy::STANDARD));
    assert!(!a.scan(&b, leblanc::compiler3::symbols::cst::Strategy::RUST));
    // the scope of the first must be strictly shallower than the second's
    assert!(!b.scan(&a, leblanc::compiler3::symbols::cst::Strategy::STANDARD));
    assert!(!b.scan(&a, leblanc::compiler3::symbols::cst::Strategy::LAZY));
    let same = csym("x", false, leblanc::compiler3::symbols::cst::Scope::Global, 1);
    assert!(!a.scan(&same, leblanc::compiler3::symbols::cst::Strategy::LAZY));
    assert!(!a.scan(&same, leblanc::compiler3::symbols::cst::Strategy::STANDARD));
    // with the rust strategy an equal scope is enough
    assert!(a.scan(&same, leblanc::compiler3::symbols::cst::Strategy::RUST));
    // neither unique: no match
    let c = csym("x", false, leblanc::compiler3::symbols::cst::Scope::Global, 1);
    assert!(!b.scan(&c, leblanc::compiler3::symbols::cst::Strategy::LAZY));
    assert!(!a.eq(&b));
    assert!(a.eq(&csym("x", true, leblanc::compiler3::symbols::cst::Scope::Local(5), 1)));
}

fn loc(line: usize) -> leblanc::compiler::parser::ast::Location {
    leblanc::compiler::parser::ast::Location { file: leblanc::rustblanc::ZCPath("f.lb"), byte_pos: (0, 1), line, symbol: 1 }
}

fn name(n: &str, line: usize) -> Ident {
    Located { location: loc(line), data: Id::Ident { ident: n.to_string() } }
}

fn typed(n: &str, line: usize) -> Expression {
    Located { location: loc(line), data: Expr::TypedVariable { typing: LeBlancType::Int, variable: name(n, line) } }
}

fn main_function() -> Component {
    let header = Located {
        location: loc(1),
        data: Cmpnt::FunctionHeader { name: "main".to_string(), args: vec![typed("x", 1)], returns: vec![LeBlancType::Int] },
    };
    let assign = Located {
        location: loc(2),
        data: Expr::TypedAssignment {
            idents: vec![typed("y", 2)],
            expr: Some(Box::new(Located { location: loc(2), data: Expr::Constant { constant: Const::Whole(5, None, loc(2)) } })),
        },
    };
    let inner = Located { location: loc(4), data: Stmnt::Line { expr: Located { location: loc(4), data: Expr::Ident { ident: name("y", 4) } } } };
    let looped = Located {
        location: loc(3),
        data: Stmnt::While {
            condition: Located { location: loc(3), data: Expr::Break },
            statement: Box::new(Located { location: loc(3), data: Stmnt::Block { statements: vec![inner] } }),
        },
    };
    let body = Located {
        location: loc(1),
        data: Stmnt::Block { statements: vec![Located { location: loc(2), data: Stmnt::Line { expr: assign } }, looped] },
    };
    Located { location: loc(1), data: Cmpnt::Function { header: Box::new(header), body, tags: vec![] } }
}

#[test]
fn a_function_is_scanned_into_tables() {
    let tables = generate_symbol_table(vec![main_function()], None);
    assert_eq!(tables.tables.len(), 3);
    assert_eq!(tables.func_counter, 1);
    let f = &tables.tables[0].symbols[0];
    assert_eq!(f.name, "main");
    assert_eq!(f.stype, CstSymbolType::Function(0));
    // the outermost table makes every symbol added to it global
    assert_eq!(f.scope, CstScope::Global);
    assert_eq!(f.typ, Some(LBType::Int));
    assert_eq!(f.linked, Some(1));
    assert!(f.unique);
    assert_eq!(f.subsymbols.len(), 1);
    assert_eq!(f.subsymbols[0].name, "x");
    assert_eq!(f.subsymbols[0].scope, CstScope::Local(0));
    assert_eq!(tables.tables[1].parent, Some(0));
    assert_eq!(tables.tables[1].level, 1);
    let body: Vec<&str> = tables.tables[1].symbols.iter().map(|s| s.name.as_str()).collect();
    assert_eq!(body, vec!["y", "While"]);
    assert_eq!(tables.tables[1].symbols[0].scope, CstScope::Local(1));
    assert!(tables.tables[1].symbols[0].unique);
    assert!(!tables.tables[1].symbols[1].unique);
    assert_eq!(tables.tables[1].symbols[1].scope, CstScope::Global);
    assert_eq!(tables.tables[1].symbols[1].linked, Some(2));
    assert_eq!(tables.tables[2].symbols.len(), 1);
    assert_eq!(tables.tables[2].symbols[0].scope, CstScope::Local(2));
    assert!(!tables.tables[2].symbols[0].unique);
    assert_eq!(tables.tables[2].symbols[0].typ, None);
}

#[test]
fn a_name_in_the_outermost_table_is_global_and_found_from_below() {
    let mut tables = CombinedSymbolTables::new();
    scan_ident(&name("z", 9), &mut tables, 0, None);
    assert_eq!(tables.tables[0].symbols[0].scope, CstScope::Global);
    let sub = tables.create_sub_table(0);
    assert_eq!(tables.get_highest_table(sub), 0);
    let probe = csym("z", false, CstScope::Global, 9);
    assert!(tables.check_existence(sub, &probe));
    assert!(!tables.check_existence(sub, &csym("w", false, CstScope::Global, 9)));
}

#[test]
fn a_function_below_the_outermost_table_stays_intermediate() {
    let mut tables = CombinedSymbolTables::new();
    let sub = tables.create_sub_table(0);
    scan_component(main_function(), &mut tables, sub);
    let f = &tables.tables[sub].symbols[0];
    assert_eq!(f.scope, CstScope::Intermediate);
    assert_eq!(f.subsymbols[0].scope, CstScope::Local(1));
    assert_eq!(f.linked, Some(2));
    assert_eq!(tables.tables[2].level, 2);
}
