use leblanc::compiler::grammar::ast::ParseType;
use leblanc::compiler::grammar::converters::parse_type_to_lb_type;
use leblanc::compiler::identifier::func_matcher::FuncMatcher;
use leblanc::compiler::identifier::token::Token;
use leblanc::compiler::identifier::type_map::TypeMap;
use leblanc::compiler::identifier::typed_token::TypedToken;
use leblanc::compiler::lang::leblanc_constants::{constant_type, is_constant};
use leblanc::compiler::lang::leblanc_keywords::LBKeyword;
use leblanc::compiler::lang::leblanc_lang::{
    boundary_value, function_type_value, is_special, special_value, BoundaryType, CompileVocab, FunctionType,
    Specials,
};
use leblanc::compiler::lang::leblanc_operators::LBOperator;
use leblanc::compiler::parser::parse_structs::{ScopeSet, ScopeTrack, ScopeType, ScopeValue};
use leblanc::compiler::symbols::{Symbol, SymbolType};
use leblanc::compiler::syntax_rules::RuleAnalyzer;
use leblanc::compiler3::leblanc_type::LBType;
use leblanc::native_types::{LeBlancType, NativeTypes};
use leblanc::rustblanc::{ErrorStub, Node};

fn tok(text: &str, vocab: CompileVocab) -> TypedToken {
    TypedToken::new(Token::from_string(text.to_string()), vocab, 0, false)
}

#[test]
fn constants_are_typed_by_their_form() {
    assert_eq!(constant_type("true"), LeBlancType::Boolean);
    assert_eq!(constant_type("\"hi\""), LeBlancType::String);
    assert_eq!(constant_type("'c'"), LeBlancType::Char);
    assert_eq!(constant_type("12"), LeBlancType::Int);
    assert_eq!(constant_type("12345678901"), LeBlancType::Int64);
    assert_eq!(constant_type("12L"), LeBlancType::Int64);
    assert_eq!(constant_type("1.5"), LeBlancType::Float);
    assert_eq!(constant_type("1.5d"), LeBlancType::Double);
    assert_eq!(constant_type("3.14159265"), LeBlancType::Double);
    assert_eq!(constant_type("main"), LeBlancType::Class(0));
    assert!(is_constant("42"));
    assert!(!is_constant("x"));
}

#[test]
fn specials_and_boundaries() {
    assert!(is_special("->"));
    assert_eq!(special_value("|"), Specials::LambdaMarker);
    assert_eq!(special_value("."), Specials::Dot);
    assert!(!is_special("+"));
    assert_eq!(boundary_value(&'{'), BoundaryType::BraceOpen);
    assert_eq!(boundary_value(&';'), BoundaryType::Semicolon);
    assert_eq!(boundary_value(&'a'), BoundaryType::DNE);
    assert_eq!(function_type_value("call"), FunctionType::Call);
    assert_eq!(function_type_value("other"), FunctionType::DNE);
    assert_eq!(BoundaryType::Comma.to_string(), ",");
    assert_eq!(Specials::StackAppend.to_string(), "->");
    assert_eq!(LBKeyword::Returns.to_string(), "returns");
    assert_eq!(LBOperator::Power.to_string(), "**");
    assert_eq!(FunctionType::Header.to_string(), "header");
}

#[test]
fn vocabulary_kinds_and_priorities() {
    let f = CompileVocab::FUNCTION(FunctionType::Call);
    assert!(f.matches("function"));
    assert!(f.matches("FUNCTION"));
    assert!(!f.matches("operator"));
    assert_eq!(CompileVocab::KEYWORD(LBKeyword::While).priority(), 1);
    assert_eq!(CompileVocab::OPERATOR(LBOperator::QuickList).priority(), 8);
    assert_eq!(CompileVocab::OPERATOR(LBOperator::Plus).priority(), 10);
    assert_eq!(CompileVocab::BOUNDARY(BoundaryType::Semicolon).priority(), 0);
    assert_eq!(CompileVocab::BOUNDARY(BoundaryType::Comma).priority(), 110);
    assert_eq!(CompileVocab::SPECIAL(Specials::Dot, 120).priority(), 120);
    assert_eq!(*CompileVocab::TYPE(LeBlancType::Int).extract_native_type(), LeBlancType::Int);
    assert!(CompileVocab::CONSTANT(LeBlancType::Int).stores_native_type());
    assert!(!CompileVocab::KEYWORD(LBKeyword::If).stores_native_type());
}

#[test]
fn symbols_are_classified() {
    assert_eq!(SymbolType::of('a'), SymbolType::Alphabetic);
    assert_eq!(SymbolType::of('é'), SymbolType::Alphabetic);
    assert_eq!(SymbolType::of('7'), SymbolType::Digit);
    assert_eq!(SymbolType::of(' '), SymbolType::Whitespace);
    assert_eq!(SymbolType::of('\u{3000}'), SymbolType::Whitespace);
    assert_eq!(SymbolType::of('+'), SymbolType::ControlCharacter);
    assert_eq!(SymbolType::of('€'), SymbolType::Unknown);
    let a = Symbol::new('x', false, false, false, false, SymbolType::Alphabetic, 1, 2);
    let b = Symbol::new('x', true, true, false, false, SymbolType::Alphabetic, 9, 9);
    assert!(a == b);
    assert_eq!(a.as_string(), "x");
    assert_eq!(*Symbol::empty().char(), '\0');
}

#[test]
fn tokens_keep_their_symbols() {
    let mut t = Token::from_string("ab".to_string());
    assert_eq!(t.len(), 2);
    t.add_symbol(Symbol::new('c', false, false, false, false, SymbolType::Alphabetic, 3, 7));
    assert_eq!(t.as_string(), "abc");
    assert_eq!(t.line_number(), 7);
    t.insert_symbol(0, Symbol::new('_', false, false, false, false, SymbolType::ControlCharacter, 0, 7));
    assert_eq!(t.as_string(), "_abc");
    assert_eq!(*t.first_symbol_or_empty().char(), '_');
    assert_eq!(*t.last_symbol_or_empty().char(), 'c');
    assert_eq!(Token::from_string("\0".to_string()).len(), 0);
    assert_eq!(*Token::empty().first_symbol_or_empty().char(), '\0');
}

#[test]
fn typed_tokens_carry_typing() {
    let mut t = tok("f", CompileVocab::FUNCTION(FunctionType::Call));
    assert_eq!(t.typing().len(), 2);
    let mut args = vec![LeBlancType::Int];
    t.set_typing_args(&mut args);
    assert!(args.is_empty());
    t.set_typing_returns(vec![LeBlancType::String]);
    assert_eq!(t.typing()[0], vec![LeBlancType::Int]);
    assert_eq!(t.typing()[1], vec![LeBlancType::String]);
    t.set_scope(3);
    t.set_global(true);
    assert_eq!(t.scope(), 3);
    assert!(t.global());
    let header = tok("f", CompileVocab::FUNCTION(FunctionType::Header));
    assert!(t.as_partial().same(&header.as_partial()));
    let var = tok("f", CompileVocab::VARIABLE(LeBlancType::Int));
    assert!(!t.as_partial().same(&var.as_partial()));
    let d1 = tok(".", CompileVocab::SPECIAL(Specials::Dot, 120));
    let d2 = tok(".", CompileVocab::SPECIAL(Specials::Dot, 0));
    assert!(d1.as_partial().same(&d2.as_partial()));
    let e = TypedToken::empty();
    assert_eq!(e.scope(), -1);
    assert_eq!(e.lang_type(), CompileVocab::UNKNOWN(LeBlancType::Class(0)));
}

#[test]
fn maps_replace_on_insert() {
    let mut m = TypeMap::new();
    assert!(!m.contains_key("a"));
    m.insert("a".to_string(), vec![vec![CompileVocab::VARIABLE(LeBlancType::Int)]]);
    m.insert("a".to_string(), vec![vec![], vec![CompileVocab::VARIABLE(LeBlancType::String)]]);
    let a = m.get("a").unwrap();
    assert_eq!(a.len(), 2);
    assert_eq!(a[1], vec![CompileVocab::VARIABLE(LeBlancType::String)]);
    let mut f = FuncMatcher::new();
    let call = tok("g", CompileVocab::FUNCTION(FunctionType::Call)).as_partial();
    f.insert(call, vec![vec![LeBlancType::Int], vec![]]);
    let header = tok("g", CompileVocab::FUNCTION(FunctionType::Header)).as_partial();
    f.insert(header, vec![vec![], vec![LeBlancType::Int]]);
    let probe = tok("g", CompileVocab::FUNCTION(FunctionType::Reference)).as_partial();
    assert_eq!(f.get(&probe).unwrap()[1], vec![LeBlancType::Int]);
    assert!(!f.contains_key(&tok("g", CompileVocab::VARIABLE(LeBlancType::Int)).as_partial()));
}

#[test]
fn native_types_are_looked_up() {
    let n = NativeTypes { names: vec![("int".to_string(), LeBlancType::Int), ("int".to_string(), LeBlancType::Int64)] };
    assert!(n.is_native_type("int"));
    assert_eq!(n.type_value("int"), LeBlancType::Int);
    assert!(!n.is_native_type("Int"));
    assert_eq!(n.type_value("foo"), LeBlancType::Class(0));
}

#[test]
fn rules_report_unbalanced_parentheses_and_unknowns() {
    let mut analysis = RuleAnalyzer::new();
    let open = Symbol::new('(', false, false, false, false, SymbolType::ControlCharacter, 4, 1);
    let close = Symbol::new(')', false, false, false, false, SymbolType::ControlCharacter, 9, 1);
    analysis.add_parenthesis(close, CompileVocab::VARIABLE(LeBlancType::Int));
    analysis.add_parenthesis(open, CompileVocab::FUNCTION(FunctionType::Call));
    analysis.add_parenthesis(open, CompileVocab::VARIABLE(LeBlancType::Int));
    let mut errors: Vec<ErrorStub> = Vec::new();
    analysis.evaluate_rule1(&mut errors);
    // only the parenthesis the call opened must be closed
    assert_eq!(errors.len(), 1);
    assert!(matches!(&errors[0], ErrorStub::ImbalancedDelimiter(s) if s.symbol_number() == 4));
    let mut ctor = RuleAnalyzer::new();
    ctor.add_parenthesis(close, CompileVocab::CONSTRUCTOR(LeBlancType::Class(0)));
    let mut errors_c: Vec<ErrorStub> = Vec::new();
    ctor.evaluate_rule1(&mut errors_c);
    assert!(matches!(&errors_c[0], ErrorStub::ImbalancedDelimiter(s) if s.symbol_number() == 9));
    let mut ctor_int = RuleAnalyzer::new();
    ctor_int.add_parenthesis(open, CompileVocab::CONSTRUCTOR(LeBlancType::Int));
    let mut errors_i: Vec<ErrorStub> = Vec::new();
    ctor_int.evaluate_rule1(&mut errors_i);
    assert_eq!(errors_i.len(), 1);
    assert!(matches!(&errors_i[0], ErrorStub::ImbalancedDelimiter(s) if s.symbol_number() == 4));
    let mut nodes = vec![
        Node::new(tok("y", CompileVocab::UNKNOWN(LeBlancType::Class(0)))),
        Node::new(tok("x", CompileVocab::VARIABLE(LeBlancType::Int))),
        Node::new(tok("=", CompileVocab::OPERATOR(LBOperator::Assign))),
        Node::new(tok("\"s\"", CompileVocab::CONSTANT(LeBlancType::String))),
    ];
    let mut errors2: Vec<ErrorStub> = Vec::new();
    RuleAnalyzer::new().evaluate(&mut errors2, &mut nodes);
    assert_eq!(errors2.len(), 2);
    assert!(matches!(&errors2[0], ErrorStub::UndeclaredVariable(t) if t.as_string() == "y"));
    assert!(matches!(&errors2[1], ErrorStub::IncompatibleType(t) if t.as_string() == "x"));
}

#[test]
fn scope_sets_find_visible_declarations() {
    let local = ScopeType::Local(1, Box::new(ScopeType::Global));
    let mut set = ScopeSet::new();
    assert!(set.get_first_id().is_none());
    set.insert(ScopeValue { scope: ScopeType::Global, arg_types: vec![], types: vec![LeBlancType::Int], id: 4 });
    assert_eq!(set.get_first_id(), Some(4));
    set.set_first_id(9);
    assert_eq!(set.get_first_id(), Some(9));
    let found = set.get_any_scope_value(&local).unwrap();
    assert_eq!(found.types, vec![LeBlancType::Int]);
    let probe = ScopeValue { scope: ScopeType::Local(2, Box::new(ScopeType::Global)), arg_types: vec![], types: vec![], id: 0 };
    assert!(set.invalid_in_scope(&probe));
    assert!(set.get_any_scope_value(&ScopeType::Class).is_none());
    let m = set.get_matching_scope_value(ScopeType::Global);
    assert_eq!(m.id, 9);
    assert_eq!(*local.get_parent().unwrap(), ScopeType::Global);
    assert!(ScopeType::Global.get_parent().is_none());
}

#[test]
fn scope_tracks_open_numbered_locals() {
    let mut track = ScopeTrack::default();
    assert_eq!(track.get_scope_type(), ScopeType::Global);
    let inner = track.bump();
    assert_eq!(track.scope_occurrence, 1);
    assert_eq!(inner.get_scope_type(), ScopeType::Local(0, Box::new(ScopeType::Global)));
}

#[test]
fn bytecode_types_and_their_bytes() {
    assert_eq!(LBType::from(LeBlancType::Int64), LBType::Long);
    assert_eq!(LBType::from(LeBlancType::Flex), LBType::Dynamic);
    assert_eq!(LBType::from(LeBlancType::Null), LBType::NAT);
    assert_eq!(LBType::from(LeBlancType::Class(7)), LBType::Class(0));
    assert_eq!(LBType::Int.to_bytes(), [3, 0, 0, 0, 0, 0, 0, 0]);
    assert_eq!(LBType::Class(300).to_bytes(), [54, 1, 0, 0, 0, 0, 0, 0]);
}

#[test]
fn written_types_convert_to_language_types() {
    assert_eq!(parse_type_to_lb_type(ParseType::Int, 0), LeBlancType::Int);
    assert_eq!(parse_type_to_lb_type(ParseType::SelfRef, 0), LeBlancType::SelfType);
    assert_eq!(parse_type_to_lb_type(ParseType::Class("Point".to_string()), 7), LeBlancType::Class(7));
    assert_eq!(parse_type_to_lb_type(ParseType::Trait("Show".to_string(), true), 3), LeBlancType::Trait(3, true));
}
