use leblanc::compiler::lang::leblanc_keywords::{keyword_value, is_keyword, LBKeyword};
use leblanc::compiler::lang::leblanc_operators::{operator_type, is_operator, LBOperator};

#[test]
fn keywords_are_recognised() {
    assert_eq!(keyword_value("elif"), LBKeyword::ElseIf);
    assert_eq!(keyword_value("Extension"), LBKeyword::Extension);
    assert!(is_keyword("func"));
    assert!(!is_keyword("function"));
}

#[test]
fn operators_are_recognised() {
    assert_eq!(operator_type("**"), LBOperator::Power);
    assert_eq!(operator_type("to"), LBOperator::QuickList);
    assert!(!is_operator("+="));
    assert!(is_operator(">="));
}

#[test]
fn grammar_scopes_print_their_numbers() {
    let local = leblanc::compiler::grammar::grammar_structs::ScopeType::Local(12);
    assert_eq!(local.to_string(), "Local(12)");
    let nested = leblanc::compiler::grammar::grammar_structs::ScopeType::NestedLocal(0);
    assert_eq!(nested.to_string(), "NestedLocal(0)");
    assert_eq!(leblanc::compiler::grammar::grammar_structs::ScopeType::Global.to_string(), "Global");
}

#[test]
fn grammar_locations_come_from_the_recorded_byte_positions() {
    let mut p = leblanc::compiler::grammar::ast::BytePositions { byte_location: vec![] };
    leblanc::compiler::grammar::ast::push_byte_location(&mut p, (3, 7));
    leblanc::compiler::grammar::ast::push_byte_location(&mut p, (3, 8));
    let l = leblanc::compiler::grammar::ast::Location::new(&p, (1, 2));
    assert_eq!((l.line_number, l.symbol_number), (3, 8));
    assert_eq!(l.byte_pos, (1, 2));
}

#[test]
fn keywords_and_operators_read_back_from_their_printed_forms() {
    for k in [LBKeyword::Using, LBKeyword::Return, LBKeyword::Returns, LBKeyword::Func, LBKeyword::For,
        LBKeyword::While, LBKeyword::Global, LBKeyword::Extension, LBKeyword::Of, LBKeyword::If,
        LBKeyword::Else, LBKeyword::Null] {
        assert_eq!(keyword_value(&k.to_string()), k);
    }
    assert_eq!(keyword_value("Extension"), LBKeyword::Extension);
    assert_eq!(keyword_value("elif"), LBKeyword::ElseIf);
    assert_eq!(keyword_value("Self"), LBKeyword::SelfRT);
    assert_eq!(keyword_value("Class"), LBKeyword::Class);
    for w in ["none", "class", "elseif", "Func"] {
        assert_eq!(keyword_value(w), LBKeyword::Null);
        assert!(!is_keyword(w));
    }
    assert_eq!(operator_type(&LBOperator::Power.to_string()), LBOperator::Power);
    assert_eq!(operator_type("in"), LBOperator::AssignEach);
    assert_eq!(operator_type("to"), LBOperator::QuickList);
    assert_eq!(operator_type("==="), LBOperator::NULL);
    assert!(!is_operator("==="));
    assert_eq!(operator_type(&LBOperator::NULL.to_string()), LBOperator::NULL);
}
