use leblanc::compiler::identifier::token::Token;
use leblanc::compiler::identifier::token_typer::{create_typed_tokens, try_type_tokens, type_tokens, GlobalScopeMarker};
use leblanc::compiler::identifier::func_matcher::FuncMatcher;
use leblanc::compiler::identifier::token_identifier::CompilationMode;
use leblanc::rustblanc::flatmap_node_tokens;
use leblanc::compiler::import::ImportType;
use leblanc::compiler::lang::leblanc_keywords::LBKeyword;
use leblanc::compiler::lang::leblanc_lang::{BoundaryType, CompileVocab, ExtensionType, FunctionType};
use leblanc::compiler::lang::leblanc_operators::LBOperator;
use leblanc::native_types::{LeBlancType, NativeTypes};
use leblanc::rustblanc::ErrorStub;
use leblanc::compiler::symbols::{Symbol, SymbolType};

fn natives() -> NativeTypes {
    NativeTypes {
        names: vec![
            ("int".to_string(), LeBlancType::Int),
            ("string".to_string(), LeBlancType::String),
            ("flex".to_string(), LeBlancType::Flex),
        ],
    }
}

/// The tokens of `words`, stacked last first as the lexer hands them over.
fn stacked(words: &[&str]) -> Vec<Token> {
    words.iter().rev().map(|w| Token::from_string(w.to_string())).collect()
}

#[test]
fn function_body_is_typed() {
    let tokens = stacked(&["func", "main", "(", ")", "{", "int", "x", "=", "5", ";", "}"]);
    let typer = type_tokens(tokens, Vec::new(), &natives());
    let roles: Vec<CompileVocab> = typer.typed_tokens.iter().map(|t| t.lang_type()).collect();
    assert_eq!(
        roles,
        vec![
            CompileVocab::KEYWORD(LBKeyword::Func),
            CompileVocab::FUNCTION(FunctionType::Header),
            CompileVocab::BOUNDARY(BoundaryType::ParenthesisOpen),
            CompileVocab::BOUNDARY(BoundaryType::ParenthesisClosed),
            CompileVocab::BOUNDARY(BoundaryType::BraceOpen),
            CompileVocab::TYPE(LeBlancType::Int),
            CompileVocab::VARIABLE(LeBlancType::Int),
            CompileVocab::OPERATOR(LBOperator::Assign),
            CompileVocab::CONSTANT(LeBlancType::Int),
            CompileVocab::BOUNDARY(BoundaryType::Semicolon),
            CompileVocab::BOUNDARY(BoundaryType::BraceClosed),
        ]
    );
    assert!(typer.typed_tokens.iter().all(|t| t.scope() == 1));
    let globals: Vec<bool> = typer.typed_tokens.iter().map(|t| t.global()).collect();
    assert_eq!(globals, vec![true, true, true, true, true, false, false, false, false, false, false]);
    assert!(typer.errors.is_empty());
    assert_eq!(typer.brace_counter, 0);
    assert_eq!(typer.scope_value, 1);
    assert_eq!(typer.global_scope, GlobalScopeMarker::NotGlobal);
    let x = typer.type_map.get("x").unwrap();
    assert_eq!(x.len(), 2);
    assert!(x[0].is_empty());
    assert_eq!(x[1], vec![CompileVocab::VARIABLE(LeBlancType::Int)]);
}

#[test]
fn top_level_statement_outside_a_declaration_is_an_error() {
    let tokens = stacked(&["x", "=", "5", ";"]);
    let typer = type_tokens(tokens, Vec::new(), &natives());
    assert_eq!(typer.typed_tokens[0].lang_type(), CompileVocab::UNKNOWN(LeBlancType::Class(0)));
    assert_eq!(typer.errors.len(), 2);
    let names: Vec<String> = typer
        .errors
        .iter()
        .map(|e| match e {
            ErrorStub::InvalidGlobalVariableDeclaration(t) => t.as_string(),
            _ => panic!("wrong error"),
        })
        .collect();
    assert_eq!(names, vec!["=", "5"]);
}

#[test]
fn using_names_an_import_once() {
    let tokens = stacked(&["using", "io", ";", "using", "io", ";", "using", "ext", ";"]);
    let mut typer = type_tokens(tokens, Vec::new(), &natives());
    assert_eq!(typer.typed_tokens[1].lang_type(), CompileVocab::MODULE(0));
    assert_eq!(typer.typed_tokens[4].lang_type(), CompileVocab::MODULE(0));
    assert_eq!(
        typer.typed_tokens[7].lang_type(),
        CompileVocab::EXTENSION(ExtensionType::ExtensionTypeImport(0))
    );
    assert_eq!(typer.imports.len(), 1);
    assert_eq!(typer.imports[0].name, "io");
    assert_eq!(typer.imports[0].import_type, ImportType::File);
    typer.fix_import_sources();
    assert_eq!(typer.imports[0].source, "io.lb");
}

#[test]
fn a_type_declared_twice_in_a_scope_is_reported() {
    let tokens = stacked(&["func", "f", "(", ")", "{", "int", "x", ";", "int", "x", ";", "}"]);
    let typer = type_tokens(tokens, Vec::new(), &natives());
    let defined: Vec<String> = typer
        .errors
        .iter()
        .filter_map(|e| match e {
            ErrorStub::VariableAlreadyDefined(t) => Some(t.as_string()),
            _ => None,
        })
        .collect();
    assert_eq!(defined, vec!["x"]);
}

#[test]
fn a_call_of_an_unknown_name_is_a_call() {
    let tokens = stacked(&["func", "f", "(", ")", "{", "print", "(", "5", ")", ";", "}"]);
    let typer = type_tokens(tokens, Vec::new(), &natives());
    assert_eq!(typer.typed_tokens[5].lang_type(), CompileVocab::FUNCTION(FunctionType::Call));
    assert_eq!(typer.analysis.open_parenthesis.len(), 0);
}

#[test]
fn an_empty_input_types_nothing() {
    let typer = type_tokens(Vec::new(), Vec::new(), &natives());
    assert!(typer.typed_tokens.is_empty());
    assert!(typer.imports.is_empty());
}

#[test]
fn braces_make_two_trees_and_nothing_else() {
    let tokens = vec![Token::from_string("}".to_string()), Token::from_string("{".to_string())];
    let (nodes, imports, errors) =
        create_typed_tokens(tokens, Vec::new(), &natives(), Vec::new(), FuncMatcher::new(), CompilationMode::StubFile);
    let flat = flatmap_node_tokens(&nodes);
    let texts: Vec<String> = flat.iter().map(|t| t.as_string()).collect();
    assert_eq!(texts, vec!["{", "}"]);
    assert_eq!(
        flat.iter().map(|t| t.lang_type()).collect::<Vec<CompileVocab>>(),
        vec![CompileVocab::BOUNDARY(BoundaryType::BraceOpen), CompileVocab::BOUNDARY(BoundaryType::BraceClosed)]
    );
    assert!(flat.iter().all(|t| t.scope() == 0 && !t.global()));
    assert!(imports.is_empty());
    assert!(errors.is_empty());
}

#[test]
fn a_function_is_identified_after_typing() {
    let tokens = stacked(&["func", "main", "(", ")", "{", "int", "x", "=", "5", ";", "}"]);
    let (nodes, imports, errors) =
        create_typed_tokens(tokens, Vec::new(), &natives(), Vec::new(), FuncMatcher::new(), CompilationMode::Standard);
    let flat = flatmap_node_tokens(&nodes);
    assert_eq!(flat.len(), 11);
    assert_eq!(flat[0].lang_type(), CompileVocab::KEYWORD(LBKeyword::Func));
    assert!(imports.is_empty());
    assert!(errors.is_empty());
}

#[test]
fn identification_keeps_the_symbols_of_each_token() {
    let open = Symbol::new('{', true, false, false, false, SymbolType::ControlCharacter, 3, 2);
    let close = Symbol::new('}', false, true, false, false, SymbolType::ControlCharacter, 5, 4);
    let tokens = vec![Token::new(vec![close], 4), Token::new(vec![open], 2)];
    let (nodes, _, errors) =
        create_typed_tokens(tokens, Vec::new(), &natives(), Vec::new(), FuncMatcher::new(), CompilationMode::Standard);
    assert!(errors.is_empty());
    let flat = flatmap_node_tokens(&nodes);
    let s0 = flat[0].token().symbols()[0];
    let s1 = flat[1].token().symbols()[0];
    assert_eq!((s0.symbol_number(), s0.line_number(), s0.pre_whitespace, s0.post_whitespace), (3, 2, true, false));
    assert_eq!((s1.symbol_number(), s1.line_number(), s1.pre_whitespace, s1.post_whitespace), (5, 4, false, true));
    assert_eq!(flat[1].token().line_number(), 4);
}

#[test]
fn try_type_tokens_types_where_it_can() {
    assert!(try_type_tokens(stacked(&["(", "x", ")"]), Vec::new(), &natives()).is_none());
    let typer = try_type_tokens(stacked(&["func", "f", "(", ")", "{", "}"]), Vec::new(), &natives()).unwrap();
    assert_eq!(typer.typed_tokens.len(), 6);
    assert_eq!(typer.typed_tokens[1].lang_type(), CompileVocab::FUNCTION(FunctionType::Header));
}
