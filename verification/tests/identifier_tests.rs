use leblanc::compiler::identifier::func_matcher::FuncMatcher;
use leblanc::compiler::identifier::token::Token;
use leblanc::compiler::identifier::token_identifier::{
    create_anno_functions, create_ownership, identify, identify_caller_function_args, identify_caller_function_args2,
    identify_functions, identify_unknown, CompilationMode, LambdaCloser,
};
use leblanc::compiler::identifier::type_map::TypeMap;
use leblanc::compiler::identifier::typed_token::TypedToken;
use leblanc::compiler::lang::leblanc_keywords::LBKeyword;
use leblanc::compiler::lang::leblanc_lang::{BoundaryType, CompileVocab, FunctionType, Specials};
use leblanc::compiler::lang::leblanc_operators::LBOperator;
use leblanc::compiler::token_stack_generator::{create_stack, try_create_stack};
use leblanc::native_types::LeBlancType;
use leblanc::rustblanc::{flatmap_node_tokens, ErrorStub, Node};

fn tok(text: &str, vocab: CompileVocab) -> TypedToken {
    TypedToken::new(Token::from_string(text.to_string()), vocab, 0, false)
}

fn texts(tokens: &[TypedToken]) -> Vec<String> {
    tokens.iter().map(|t| t.as_string()).collect()
}

fn var(name: &str) -> TypedToken {
    tok(name, CompileVocab::VARIABLE(LeBlancType::Int))
}

fn constant(text: &str) -> TypedToken {
    tok(text, CompileVocab::CONSTANT(LeBlancType::Int))
}

fn bound(text: &str, b: BoundaryType) -> TypedToken {
    tok(text, CompileVocab::BOUNDARY(b))
}

fn op(text: &str, o: LBOperator) -> TypedToken {
    tok(text, CompileVocab::OPERATOR(o))
}

fn marker() -> TypedToken {
    tok("|", CompileVocab::SPECIAL(Specials::LambdaMarker, 120))
}

#[test]
fn call_arguments_are_typed() {
    let mut tokens = vec![
        tok("print", CompileVocab::FUNCTION(FunctionType::Call)),
        bound("(", BoundaryType::ParenthesisOpen),
        var("x"),
        bound(",", BoundaryType::Comma),
        tok("2.5", CompileVocab::CONSTANT(LeBlancType::Float)),
        bound(")", BoundaryType::ParenthesisClosed),
        bound(";", BoundaryType::Semicolon),
    ];
    let out = identify_caller_function_args2(&mut tokens, None);
    assert_eq!(texts(&out), vec!["print", "(", "x", ",", "2.5", ")", ";"]);
    assert_eq!(out[0].typing()[0], vec![LeBlancType::Int, LeBlancType::Float]);
    assert!(tokens.is_empty());
}

#[test]
fn nested_call_gives_its_return_type() {
    let mut inner = tok("len", CompileVocab::FUNCTION(FunctionType::Call));
    inner.set_typing_returns(vec![LeBlancType::Int64]);
    let mut tokens = vec![
        tok("print", CompileVocab::FUNCTION(FunctionType::Call)),
        bound("(", BoundaryType::ParenthesisOpen),
        inner,
        bound("(", BoundaryType::ParenthesisOpen),
        var("s"),
        bound(")", BoundaryType::ParenthesisClosed),
        bound(")", BoundaryType::ParenthesisClosed),
        bound(";", BoundaryType::Semicolon),
    ];
    let out = identify_caller_function_args2(&mut tokens, None);
    assert_eq!(out.len(), 8);
    assert_eq!(out[0].typing()[0], vec![LeBlancType::Int64]);
    assert_eq!(out[2].typing()[0], vec![LeBlancType::Int]);
}

#[test]
fn function_headers_are_filed() {
    let mut tokens = vec![
        tok("func", CompileVocab::KEYWORD(LBKeyword::Func)),
        tok("add", CompileVocab::FUNCTION(FunctionType::Header)),
        bound("(", BoundaryType::ParenthesisOpen),
        tok("int", CompileVocab::TYPE(LeBlancType::Int)),
        var("a"),
        bound(")", BoundaryType::ParenthesisClosed),
        tok("returns", CompileVocab::KEYWORD(LBKeyword::Returns)),
        tok("int", CompileVocab::TYPE(LeBlancType::Int)),
        bound("{", BoundaryType::BraceOpen),
        bound("}", BoundaryType::BraceClosed),
    ];
    let mut matcher = FuncMatcher::new();
    let mut errors: Vec<ErrorStub> = Vec::new();
    identify_functions(&mut tokens, &mut matcher, &mut errors);
    assert_eq!(tokens[1].typing()[0], vec![LeBlancType::Int]);
    assert_eq!(tokens[1].typing()[1], vec![LeBlancType::Int]);
    let key = tok("add", CompileVocab::FUNCTION(FunctionType::Call)).as_partial();
    let sig = matcher.get(&key).unwrap();
    assert_eq!(sig[0], vec![LeBlancType::Int]);
    assert_eq!(sig[1], vec![LeBlancType::Int]);
    assert!(errors.is_empty());
}

#[test]
fn header_without_body_returns_unknown_class() {
    let mut tokens = vec![
        tok("func", CompileVocab::KEYWORD(LBKeyword::Func)),
        tok("a", CompileVocab::FUNCTION(FunctionType::Header)),
        tok("func", CompileVocab::KEYWORD(LBKeyword::Func)),
        tok("b", CompileVocab::FUNCTION(FunctionType::Header)),
    ];
    let mut matcher = FuncMatcher::new();
    let mut errors: Vec<ErrorStub> = Vec::new();
    identify_functions(&mut tokens, &mut matcher, &mut errors);
    assert_eq!(tokens[1].typing()[1], vec![LeBlancType::Class(0)]);
    assert!(matcher.contains_key(&tokens[1].as_partial()));
}

#[test]
fn bad_return_list_is_an_error() {
    let mut tokens = vec![
        tok("func", CompileVocab::KEYWORD(LBKeyword::Func)),
        tok("f", CompileVocab::FUNCTION(FunctionType::Header)),
        tok("returns", CompileVocab::KEYWORD(LBKeyword::Returns)),
        var("oops"),
        bound("{", BoundaryType::BraceOpen),
    ];
    let mut matcher = FuncMatcher::new();
    let mut errors: Vec<ErrorStub> = Vec::new();
    identify_functions(&mut tokens, &mut matcher, &mut errors);
    assert_eq!(errors.len(), 1);
    match &errors[0] {
        ErrorStub::InvalidSyntax(t) => assert_eq!(t.as_string(), "oops"),
        _ => panic!("wrong error"),
    }
}

#[test]
fn unknown_names_take_their_recorded_type() {
    let mut tokens = vec![tok("y", CompileVocab::UNKNOWN(LeBlancType::Class(0))), tok("z", CompileVocab::UNKNOWN(LeBlancType::Class(2)))];
    tokens[1].set_scope(2);
    let mut type_map = TypeMap::new();
    type_map.insert("y".to_string(), vec![vec![CompileVocab::VARIABLE(LeBlancType::String)]]);
    type_map.insert("z".to_string(), vec![vec![], vec![], vec![CompileVocab::VARIABLE(LeBlancType::Int)]]);
    identify_unknown(&mut tokens, &mut type_map);
    assert_eq!(tokens[0].lang_type(), CompileVocab::VARIABLE(LeBlancType::String));
    assert_eq!(tokens[0].scope(), 0);
    assert_eq!(tokens[1].lang_type(), CompileVocab::VARIABLE(LeBlancType::Int));
    assert_eq!(tokens[1].scope(), 2);
}

#[test]
fn parentheses_nest_their_contents() {
    let tokens = vec![
        tok("f", CompileVocab::FUNCTION(FunctionType::Call)),
        bound("(", BoundaryType::ParenthesisOpen),
        var("a"),
        bound(",", BoundaryType::Comma),
        var("b"),
        bound(")", BoundaryType::ParenthesisClosed),
        bound(";", BoundaryType::Semicolon),
    ];
    let nodes = create_ownership(tokens, CompilationMode::Standard);
    let roots: Vec<String> = nodes.iter().map(|n| n.value.as_string()).collect();
    assert_eq!(roots, vec!["f", "(", ")", ";"]);
    let inner: Vec<String> = nodes[1].children.iter().map(|n| n.value.as_string()).collect();
    assert_eq!(inner, vec!["a", ",", "b"]);
    let flat = flatmap_node_tokens(&nodes);
    assert_eq!(texts(&flat), vec!["f", "(", "a", ",", "b", ")", ";"]);
}

#[test]
fn stub_files_are_not_nested() {
    let tokens = vec![bound("(", BoundaryType::ParenthesisOpen), var("a"), bound(")", BoundaryType::ParenthesisClosed)];
    let nodes = create_ownership(tokens, CompilationMode::StubFile);
    assert_eq!(nodes.len(), 3);
    assert!(nodes.iter().all(|n| n.children.is_empty()));
}

#[test]
fn expression_lambda_is_lifted() {
    let mut tokens = vec![
        var("f"),
        op("=", LBOperator::Assign),
        marker(),
        var("x"),
        marker(),
        var("x"),
        op("+", LBOperator::Plus),
        constant("1"),
        bound(";", BoundaryType::Semicolon),
    ];
    let mut errors: Vec<ErrorStub> = Vec::new();
    create_anno_functions(&mut tokens, &mut errors);
    let t = texts(&tokens);
    let name = t[3].clone();
    assert!(!name.is_empty() && name.chars().all(|c| c.is_ascii_digit()));
    assert_eq!(
        t,
        vec![
            "f", "=", "|", name.as_str(), ";", "func", name.as_str(), "(", "flex", "x", ")", "returns", "flex", "{",
            "x", "+", "1", ";", "}",
        ]
    );
    assert_eq!(tokens[3].lang_type(), CompileVocab::FUNCTION(FunctionType::Reference));
    assert_eq!(tokens[6].lang_type(), CompileVocab::FUNCTION(FunctionType::Header));
    assert!(errors.is_empty());
}

#[test]
fn lambda_arguments_are_separated_by_commas() {
    let mut tokens = vec![
        marker(),
        var("a"),
        bound(",", BoundaryType::Comma),
        var("b"),
        marker(),
        var("a"),
        bound(";", BoundaryType::Semicolon),
    ];
    let mut errors: Vec<ErrorStub> = Vec::new();
    create_anno_functions(&mut tokens, &mut errors);
    let t = texts(&tokens);
    let name = t[1].clone();
    assert_eq!(
        t,
        vec![
            "|", name.as_str(), ";", "func", name.as_str(), "(", "flex", "a", ",", "flex", "b", ")", "returns", "flex",
            "{", "a", ";", "}",
        ]
    );
}

#[test]
fn lambda_closers_break_where_expected() {
    assert!(LambdaCloser::SemiColonCloser(1).should_break(";".to_string()));
    assert!(LambdaCloser::SemiColonCloser(0).should_break(")".to_string()));
    assert!(!LambdaCloser::SemiColonCloser(0).should_break(";".to_string()));
    assert!(LambdaCloser::BraceCloser(0).should_break("{".to_string()));
    assert!(!LambdaCloser::BraceCloser(1).should_break("}".to_string()));
}

#[test]
fn assignment_stacks_operator_first() {
    let tokens = vec![var("x"), op("=", LBOperator::Assign), constant("5"), bound(";", BoundaryType::Semicolon)];
    let mut nodes = create_ownership(tokens, CompilationMode::Standard);
    let mut stack = Vec::new();
    let out = create_stack(&mut nodes, &mut stack);
    assert_eq!(texts(out), vec![";", "=", "x", "5"]);
    assert!(nodes.is_empty());
}

#[test]
fn keyword_goes_first_and_while_rotates() {
    let tokens = vec![
        tok("while", CompileVocab::KEYWORD(LBKeyword::While)),
        var("a"),
        op("<", LBOperator::LessThan),
        var("b"),
    ];
    let mut nodes = create_ownership(tokens, CompilationMode::Standard);
    let mut stack = Vec::new();
    create_stack(&mut nodes, &mut stack);
    assert_eq!(texts(&stack), vec!["b", "<", "a", "while"]);
}

#[test]
fn call_group_is_stacked_after_the_call() {
    let tokens = vec![
        tok("f", CompileVocab::FUNCTION(FunctionType::Call)),
        bound("(", BoundaryType::ParenthesisOpen),
        var("a"),
        bound(")", BoundaryType::ParenthesisClosed),
    ];
    let mut nodes = create_ownership(tokens, CompilationMode::Standard);
    let mut stack = Vec::new();
    create_stack(&mut nodes, &mut stack);
    assert_eq!(texts(&stack), vec!["f", "a", ")"]);
}

#[test]
fn identification_resolves_references_and_lifts_lambdas() {
    let tokens = vec![
        tok("func", CompileVocab::KEYWORD(LBKeyword::Func)),
        tok("g", CompileVocab::FUNCTION(FunctionType::Header)),
        bound("(", BoundaryType::ParenthesisOpen),
        bound(")", BoundaryType::ParenthesisClosed),
        tok("returns", CompileVocab::KEYWORD(LBKeyword::Returns)),
        tok("int", CompileVocab::TYPE(LeBlancType::Int)),
        bound("{", BoundaryType::BraceOpen),
        tok("g", CompileVocab::UNKNOWN(LeBlancType::Class(0))),
        bound(";", BoundaryType::Semicolon),
        bound("}", BoundaryType::BraceClosed),
    ];
    let mut type_map = TypeMap::new();
    let mut errors: Vec<ErrorStub> = Vec::new();
    let nodes = identify(tokens, Vec::new(), &mut type_map, FuncMatcher::new(), &mut errors, CompilationMode::Standard);
    let flat = flatmap_node_tokens(&nodes);
    assert_eq!(flat.len(), 10);
    assert_eq!(flat[7].lang_type(), CompileVocab::FUNCTION(FunctionType::Reference));
    assert_eq!(flat[7].typing()[1], vec![LeBlancType::Int]);
    assert!(errors.is_empty());
    let _ = Node::new(var("unused"));
}

#[test]
fn index_shifting_pass_types_call_arguments() {
    let mut tokens = vec![
        tok("print", CompileVocab::FUNCTION(FunctionType::Call)),
        bound("(", BoundaryType::ParenthesisOpen),
        var("x"),
        bound(",", BoundaryType::Comma),
        constant("5"),
        bound(")", BoundaryType::ParenthesisClosed),
        bound(";", BoundaryType::Semicolon),
    ];
    let width = identify_caller_function_args(&mut tokens, 0, 7);
    assert_eq!(width, 7);
    assert_eq!(tokens[0].typing()[0], vec![LeBlancType::Int, LeBlancType::Int]);
}

#[test]
fn index_shifting_pass_reads_nested_calls() {
    let mut inner = tok("len", CompileVocab::FUNCTION(FunctionType::Call));
    inner.set_typing_returns(vec![LeBlancType::Int64]);
    let mut tokens = vec![
        tok("print", CompileVocab::FUNCTION(FunctionType::Call)),
        bound("(", BoundaryType::ParenthesisOpen),
        inner,
        bound("(", BoundaryType::ParenthesisOpen),
        var("s"),
        bound(")", BoundaryType::ParenthesisClosed),
        bound(")", BoundaryType::ParenthesisClosed),
        bound(";", BoundaryType::Semicolon),
    ];
    let width = identify_caller_function_args(&mut tokens, 0, 8);
    assert_eq!(width, 8);
    assert_eq!(tokens[0].typing()[0], vec![LeBlancType::Int64]);
    assert_eq!(tokens[2].typing()[0], vec![LeBlancType::Int]);
}

#[test]
fn a_call_without_typing_lists_is_read_when_no_argument_type_is_given() {
    let mut call = tok("go", CompileVocab::FUNCTION(FunctionType::Call));
    call.set_typing(vec![]);
    let mut tokens = vec![
        call,
        bound("(", BoundaryType::ParenthesisOpen),
        bound(")", BoundaryType::ParenthesisClosed),
        bound(";", BoundaryType::Semicolon),
    ];
    let out = identify_caller_function_args2(&mut tokens, None);
    assert_eq!(texts(&out), vec!["go", "(", ")", ";"]);
    assert!(out[0].typing().is_empty());
}

#[test]
fn a_stack_is_built_only_where_the_forest_has_one() {
    let tokens = vec![var("x"), op("=", LBOperator::Assign), constant("5"), bound(";", BoundaryType::Semicolon)];
    let mut nodes = create_ownership(tokens, CompilationMode::Standard);
    let mut stack = Vec::new();
    assert!(try_create_stack(&mut nodes, &mut stack));
    assert_eq!(texts(&stack), vec![";", "=", "x", "5"]);
    let mut lone = vec![Node::new(tok("while", CompileVocab::KEYWORD(LBKeyword::While)))];
    let mut stack2 = Vec::new();
    assert!(!try_create_stack(&mut lone, &mut stack2));
    let mut call = vec![Node::new(tok("f", CompileVocab::FUNCTION(FunctionType::Call)))];
    let mut stack3 = Vec::new();
    assert!(!try_create_stack(&mut call, &mut stack3));
}
