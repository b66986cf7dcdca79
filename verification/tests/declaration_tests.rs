use leblanc::compiler::parser::ast::{
    Cmpnt, Component, Conditional, Const, Expr, Expression, Id, Ident, Located, Location, Statement, Stmnt,
};
use leblanc::compiler::parser::ast::{clear_byte_location, push_byte_location, set_file, SourcePositions};
use leblanc::compiler::parser::function_sorter::sort_functions;
use leblanc::compiler::parser::import_manager::CompiledImport;
use leblanc::compiler::parser::parse_structs::{FunctionType, IdentStore, ScopeSet, ScopeType};
use leblanc::compiler::parser::rules::declaration_rule::declaration_analysis;
use leblanc::native_types::LeBlancType;
use leblanc::rustblanc::ZCPath;

fn loc() -> Location {
    Location { file: ZCPath("test.lb"), byte_pos: (0, 0), line: 1, symbol: 1 }
}

fn ident(s: &str) -> Ident {
    Located::new(loc(), Id::Ident { ident: s.to_string() })
}

fn typed(t: LeBlancType, s: &str) -> Expression {
    Located::new(loc(), Expr::TypedVariable { typing: t, variable: ident(s) })
}

fn line(e: Expression) -> Statement {
    Located::new(loc(), Stmnt::Line { expr: e })
}

fn block(v: Vec<Statement>) -> Statement {
    Located::new(loc(), Stmnt::Block { statements: v })
}

fn truth() -> Expression {
    Located::new(loc(), Expr::Constant { constant: Const::Boolean(true, loc()) })
}

fn func(name: &str, args: Vec<Expression>, body: Statement) -> Component {
    let header = Located::new(
        loc(),
        Cmpnt::FunctionHeader { name: name.to_string(), args, returns: vec![LeBlancType::Int] },
    );
    Located::new(loc(), Cmpnt::Function { header: Box::new(header), body, tags: vec![] })
}

fn module(name: &str, components: Vec<Component>) -> CompiledImport {
    CompiledImport { name: name.to_string(), components }
}

/// The declarations recorded under `key` in the table of module `m`.
fn decls<'a>(groups: &'a [(String, Vec<(IdentStore, ScopeSet)>)], m: &str, key: &IdentStore) -> Option<&'a ScopeSet> {
    let table = &groups.iter().find(|g| g.0 == m)?.1;
    table.iter().find(|e| same_key(&e.0, key)).map(|e| &e.1)
}

fn same_key(a: &IdentStore, b: &IdentStore) -> bool {
    match (a, b) {
        (IdentStore::Function(x, t, f), IdentStore::Function(y, u, g)) => x == y && t == u && f == g,
        (IdentStore::Variable(x), IdentStore::Variable(y)) => x == y,
        _ => false,
    }
}

fn var(s: &str) -> IdentStore {
    IdentStore::Variable(s.to_string())
}

fn local(n: u64, parent: ScopeType) -> ScopeType {
    ScopeType::Local(n, Box::new(parent))
}

#[test]
fn functions_arguments_and_variables_are_numbered() {
    let body = block(vec![line(typed(LeBlancType::Int, "x"))]);
    let mut mods = vec![module("main", vec![func("f", vec![typed(LeBlancType::Int, "a"), typed(LeBlancType::String, "b")], body)])];
    let groups = declaration_analysis(&mut mods, 3);
    assert_eq!(groups.len(), 1);
    let f = decls(&groups, "main", &IdentStore::Function(
        "f".to_string(),
        vec![LeBlancType::Int, LeBlancType::String],
        FunctionType::LeBlanc,
    ))
    .unwrap();
    assert_eq!(f.iter().len(), 1);
    assert_eq!(f.iter()[0].scope, ScopeType::Global);
    assert_eq!(f.iter()[0].types, vec![LeBlancType::Int]);
    assert_eq!(f.get_first_id(), Some(3));
    let fscope = local(0, ScopeType::Global);
    let a = decls(&groups, "main", &var("a")).unwrap();
    assert_eq!(a.iter()[0].scope, fscope);
    assert_eq!(a.iter()[0].id, 0);
    let b = decls(&groups, "main", &var("b")).unwrap();
    assert_eq!(b.iter()[0].types, vec![LeBlancType::String]);
    assert_eq!(b.iter()[0].id, 1);
    let x = decls(&groups, "main", &var("x")).unwrap();
    assert_eq!(x.iter()[0].scope, fscope);
    assert_eq!(x.iter()[0].id, 2);
}

#[test]
fn redeclaring_an_argument_in_the_body_is_left_out() {
    let body = block(vec![line(typed(LeBlancType::Int, "a")), line(typed(LeBlancType::Int, "y"))]);
    let mut mods = vec![module("main", vec![func("f", vec![typed(LeBlancType::Int, "a")], body)])];
    let groups = declaration_analysis(&mut mods, 0);
    assert_eq!(decls(&groups, "main", &var("a")).unwrap().iter().len(), 1);
    // the block stops at the clash
    assert!(decls(&groups, "main", &var("y")).is_none());
}

#[test]
fn a_nested_scope_sees_the_enclosing_declaration() {
    let inner = block(vec![line(typed(LeBlancType::Int, "x"))]);
    let body = block(vec![
        line(typed(LeBlancType::Int, "x")),
        Located::new(loc(), Stmnt::While { condition: truth(), statement: Box::new(inner) }),
    ]);
    let mut mods = vec![module("main", vec![func("f", vec![], body)])];
    let groups = declaration_analysis(&mut mods, 0);
    assert_eq!(decls(&groups, "main", &var("x")).unwrap().iter().len(), 1);
}

#[test]
fn sibling_branches_may_declare_the_same_name() {
    let then_branch = block(vec![line(typed(LeBlancType::Int, "y"))]);
    let else_branch = block(vec![line(typed(LeBlancType::Int, "y"))]);
    let body = block(vec![
        Located::new(loc(), Stmnt::Conditional {
            conditional: Conditional::If { condition: truth(), statement: Box::new(then_branch) },
        }),
        Located::new(loc(), Stmnt::Conditional { conditional: Conditional::Else { statement: Box::new(else_branch) } }),
    ]);
    let mut mods = vec![module("main", vec![func("f", vec![], body)])];
    let groups = declaration_analysis(&mut mods, 0);
    let y = decls(&groups, "main", &var("y")).unwrap();
    assert_eq!(y.iter().len(), 2);
    let fscope = local(0, ScopeType::Global);
    assert_eq!(y.iter()[0].scope, local(0, fscope.clone()));
    assert_eq!(y.iter()[1].scope, local(1, fscope));
}

#[test]
fn a_function_declared_twice_keeps_its_first_declaration() {
    let mut mods = vec![module(
        "main",
        vec![func("f", vec![], block(vec![])), func("f", vec![], block(vec![])), func("g", vec![], block(vec![]))],
    )];
    let groups = declaration_analysis(&mut mods, 10);
    let f = decls(&groups, "main", &IdentStore::Function("f".to_string(), vec![], FunctionType::LeBlanc)).unwrap();
    assert_eq!(f.iter().len(), 1);
    assert_eq!(f.get_first_id(), Some(10));
    let g = decls(&groups, "main", &IdentStore::Function("g".to_string(), vec![], FunctionType::LeBlanc)).unwrap();
    assert_eq!(g.get_first_id(), Some(12));
}

#[test]
fn functions_open_scopes_numbered_in_order() {
    let mut mods = vec![module(
        "main",
        vec![
            func("f", vec![typed(LeBlancType::Int, "a")], block(vec![])),
            func("g", vec![typed(LeBlancType::Int, "a")], block(vec![])),
        ],
    )];
    let groups = declaration_analysis(&mut mods, 0);
    let a = decls(&groups, "main", &var("a")).unwrap();
    assert_eq!(a.iter().len(), 2);
    assert_eq!(a.iter()[0].scope, local(0, ScopeType::Global));
    assert_eq!(a.iter()[1].scope, local(1, ScopeType::Global));
    // variable numbers start again with each header
    assert_eq!(a.iter()[1].id, 0);
}

#[test]
fn typed_assignment_declares_each_typed_name() {
    let assign = Located::new(loc(), Expr::TypedAssignment {
        idents: vec![typed(LeBlancType::Int, "p"), typed(LeBlancType::Int, "q")],
        expr: None,
    });
    let mut mods = vec![module("main", vec![func("f", vec![], block(vec![line(assign)]))])];
    let groups = declaration_analysis(&mut mods, 0);
    assert!(decls(&groups, "main", &var("p")).is_some());
    assert!(decls(&groups, "main", &var("q")).is_some());
}

#[test]
fn a_global_statement_is_in_the_global_scope() {
    let global = Located::new(loc(), Stmnt::Global { statement: Box::new(line(typed(LeBlancType::Int, "g"))) });
    let mut mods = vec![module("main", vec![func("f", vec![], block(vec![global]))])];
    let groups = declaration_analysis(&mut mods, 0);
    assert_eq!(decls(&groups, "main", &var("g")).unwrap().iter()[0].scope, ScopeType::Global);
}

#[test]
fn a_later_module_of_the_same_name_replaces_the_earlier() {
    let mut mods = vec![
        module("m", vec![func("f", vec![], block(vec![]))]),
        module("other", vec![]),
        module("m", vec![func("g", vec![], block(vec![]))]),
    ];
    let groups = declaration_analysis(&mut mods, 0);
    assert_eq!(groups.len(), 2);
    assert_eq!(groups[0].0, "m");
    assert!(decls(&groups, "m", &IdentStore::Function("f".to_string(), vec![], FunctionType::LeBlanc)).is_none());
    let g = decls(&groups, "m", &IdentStore::Function("g".to_string(), vec![], FunctionType::LeBlanc)).unwrap();
    assert_eq!(g.get_first_id(), Some(1));
}

#[test]
fn the_tables_can_be_sorted() {
    let mut mods = vec![module("main", vec![func("f", vec![], block(vec![])), func("g", vec![], block(vec![]))])];
    let mut groups = declaration_analysis(&mut mods, 0);
    sort_functions(&mut groups);
    let f = decls(&groups, "main", &IdentStore::Function("f".to_string(), vec![], FunctionType::LeBlanc)).unwrap();
    let g = decls(&groups, "main", &IdentStore::Function("g".to_string(), vec![], FunctionType::LeBlanc)).unwrap();
    assert_eq!(f.get_first_id(), Some(0));
    assert_eq!(g.get_first_id(), Some(1));
}

#[test]
fn constants_know_their_type_and_place() {
    let here = Location { file: ZCPath("c.lb"), byte_pos: (4, 6), line: 2, symbol: 3 };
    assert_eq!(Const::Whole(5, None, here).to_lb_type(), LeBlancType::Int);
    assert_eq!(Const::Whole(5, Some(LeBlancType::Short), here).to_lb_type(), LeBlancType::Short);
    assert_eq!(Const::Float(1.5f64.to_bits(), None, here).to_lb_type(), LeBlancType::Double);
    assert_eq!(Const::String("s".to_string(), here).to_lb_type(), LeBlancType::String);
    assert_eq!(Const::Boolean(true, here).to_lb_type(), LeBlancType::Boolean);
    let l = Const::Boolean(false, here).location();
    assert_eq!(l.byte_pos, (4, 6));
    assert_eq!(l.line, 2);
}

#[test]
fn a_typed_name_makes_a_function_argument() {
    let obj = Located::new(loc(), Id::ObjIdent { ident: Box::new(ident("self")), attr: Box::new(ident("count")) });
    let e = Located::new(loc(), Expr::TypedVariable { typing: LeBlancType::Int64, variable: obj });
    let arg = leblanc::compiler3::symbols::converted::FunctionArg::from(e);
    assert_eq!(arg.name, "self.count");
    assert_eq!(arg.typing, leblanc::compiler3::leblanc_type::LBType::Long);
    assert_eq!(arg.location.line, 1);
}

fn item(c: Cmpnt) -> Component {
    Located::new(loc(), c)
}

fn names(v: &[&str]) -> Vec<String> {
    v.iter().map(|s| s.to_string()).collect()
}

#[test]
fn a_module_requests_its_imports_in_order() {
    let m = module(
        "main",
        vec![
            item(Cmpnt::Import { module: "io".to_string(), import: None }),
            func("f", vec![], block(vec![])),
            item(Cmpnt::Import { module: "math".to_string(), import: Some(names(&["sqrt", "pi"])) }),
        ],
    );
    let r = leblanc::compiler::parser::import_manager::import_requests(&m);
    assert_eq!(r.len(), 2);
    assert_eq!(r[0], ("io".to_string(), None));
    assert_eq!(r[1], ("math".to_string(), Some(names(&["sqrt", "pi"]))));
}

#[test]
fn importing_names_keeps_only_those_items() {
    let cs = vec![
        func("sqrt", vec![], block(vec![])),
        func("hidden", vec![], block(vec![])),
        item(Cmpnt::Class { name: "Pi".to_string(), super_traits: vec![], items: vec![] }),
        item(Cmpnt::Trait { name: "T".to_string(), super_traits: vec![], items: vec![] }),
        item(Cmpnt::ExtImport { module: "ext".to_string(), extension: "e".to_string() }),
        item(Cmpnt::Import { module: "core".to_string(), import: Some(names(&["x"])) }),
    ];
    let (kept, requests) = leblanc::compiler::parser::import_manager::select_imported(cs, &names(&["sqrt", "Pi"]));
    assert_eq!(kept.len(), 3);
    match &kept[0].data {
        Cmpnt::Function { header, .. } => match &header.data {
            Cmpnt::FunctionHeader { name, .. } => assert_eq!(name, "sqrt"),
            _ => panic!("not a header"),
        },
        _ => panic!("not a function"),
    }
    assert!(matches!(&kept[1].data, Cmpnt::Class { name, .. } if name == "Pi"));
    assert!(matches!(&kept[2].data, Cmpnt::ExtImport { .. }));
    assert_eq!(requests, vec![("core".to_string(), Some(names(&["x"])))]);
}

#[test]
fn locations_come_from_the_recorded_byte_positions() {
    let mut p = SourcePositions::new(ZCPath("a.lb"));
    push_byte_location(&mut p, (1, 1));
    push_byte_location(&mut p, (1, 2));
    push_byte_location(&mut p, (2, 1));
    set_file(&mut p, ZCPath("b.lb"));
    let l = Location::new(&p, (2, 3));
    assert_eq!((l.line, l.symbol), (2, 1));
    assert_eq!(l.byte_pos, (2, 3));
    assert_eq!(l.file.0, "b.lb");
    clear_byte_location(&mut p);
    assert!(p.byte_location.is_empty());
}

#[test]
fn names_print_with_dots() {
    let obj = Id::ObjIdent { ident: Box::new(ident("list")), attr: Box::new(ident("len")) };
    assert_eq!(obj.to_string(), "list.len");
    let en = Id::EnumIdent { ident: Box::new(ident("Color")), kind: Box::new(ident("Red")) };
    assert_eq!(en.to_string(), "Color.Red");
    assert_eq!(Id::Ident { ident: "x".to_string() }.to_string(), "x");
}
