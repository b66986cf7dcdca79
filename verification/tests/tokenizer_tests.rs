use leblanc::compiler::identifier::token::Token;
use leblanc::compiler::symbols::{Symbol, SymbolType};
use leblanc::compiler::tokenizer::{add_token, check_end_quote, check_start_quote, create_tokens, try_create_tokens, CharRead, Tokenizer};
use leblanc::compiler::lang::leblanc_lang::CompileVocab;
use leblanc::native_types::{LeBlancType, NativeTypes};
use leblanc::rustblanc::ErrorStub;

/// Reads `src` as a character reader would, on line one, with `'\0'` past the end,
/// and returns the tokens in reading order with the errors.
fn lex(src: &str) -> (Vec<String>, Vec<ErrorStub>) {
    let chars: Vec<char> = src.chars().collect();
    let at = |i: usize| chars.get(i).copied().unwrap_or('\0');
    let mut tz = Tokenizer::new();
    let mut next = tz.first_symbol(at(0), at(1), 0, 1);
    let mut i = 1;
    while i <= chars.len() {
        let current = next;
        next = tz.get_next_symbol(at(i), at(i + 1), current, i as u32, 1);
        i += 1;
        if tz.step(current, next) {
            next = tz.get_next_symbol(at(i), at(i + 1), current, i as u32, 1);
            i += 1;
        }
    }
    let mut errors = Vec::new();
    let tokens = tz.finish(&mut errors);
    (tokens.iter().rev().map(|t| t.as_string()).collect(), errors)
}

#[test]
fn assignment_is_cut_at_spaces_and_boundaries() {
    let (tokens, errors) = lex("a = 12;");
    assert_eq!(tokens, vec!["a", "=", "12", ";"]);
    assert!(errors.is_empty());
}

#[test]
fn two_character_operators_stay_together() {
    let (tokens, _) = lex("x == y;");
    assert_eq!(tokens, vec!["x", "==", "y", ";"]);
}

#[test]
fn line_comments_are_dropped() {
    let (tokens, _) = lex("a // hi\nb;");
    assert_eq!(tokens, vec!["a", "b", ";"]);
}

#[test]
fn block_comments_are_dropped() {
    let (tokens, _) = lex("a /* x y */ b;");
    assert_eq!(tokens, vec!["a", "b", ";"]);
}

#[test]
fn quoted_text_is_one_token() {
    let (tokens, errors) = lex("s = \"a b\"; ");
    assert_eq!(tokens, vec!["s", "=", "\"a b\"", ";"]);
    assert!(errors.is_empty());
}

#[test]
fn unclosed_quotation_is_reported() {
    let (_, errors) = lex("s = \"ab");
    assert_eq!(errors.len(), 1);
    match errors[0] {
        ErrorStub::ParseImbalancedQuotation(line, symbol) => {
            assert_eq!(line, 1);
            assert_eq!(symbol, 4);
        }
        _ => panic!("wrong error"),
    }
}

#[test]
fn stack_append_marker_is_one_token() {
    let (tokens, _) = lex("a -> b;");
    assert_eq!(tokens, vec!["a", "->", "b", ";"]);
}

#[test]
fn quote_checks() {
    assert!(check_start_quote('"', '\0'));
    assert!(!check_start_quote('"', '\''));
    assert!(!check_start_quote('a', '\0'));
    assert!(check_end_quote('\'', '\''));
    assert!(!check_end_quote('\'', '"'));
}

#[test]
fn add_token_skips_comments_and_empty_tokens() {
    let mut tokens = Vec::new();
    add_token(&mut tokens, Token::from_string("// note".to_string()));
    add_token(&mut tokens, Token::empty());
    add_token(&mut tokens, Token::from_string("\0".to_string()));
    add_token(&mut tokens, Token::from_string("ok".to_string()));
    assert_eq!(tokens.len(), 1);
    assert_eq!(tokens[0].as_string(), "ok");
}

#[test]
fn symbols_are_marked() {
    let mut tz = Tokenizer::new();
    let first = tz.first_symbol('a', ' ', 0, 1);
    assert!(first.pre_whitespace);
    assert_eq!(*first.get_type(), SymbolType::Alphabetic);
    let quote = tz.get_next_symbol('"', 'x', first, 1, 1);
    assert!(quote.is_start_quote);
    assert_eq!(tz.quote_marker.ch, '"');
    let close = tz.get_next_symbol('"', ';', quote, 3, 1);
    assert!(close.is_end_quote);
    assert_eq!(tz.quote_marker.ch, '\0');
    let space = tz.get_next_symbol(' ', 'b', close, 4, 1);
    let after = tz.get_next_symbol('b', '\0', space, 5, 1);
    assert!(after.post_whitespace);
    let _ = Symbol::empty();
}

/// The reads of `src` as a reader hands them out on line one: each character with the
/// one after it and its number on the line, and a last read of NUL past the end.
fn reads_of(src: &str) -> Vec<CharRead> {
    let chars: Vec<char> = src.chars().collect();
    let at = |i: usize| chars.get(i).copied().unwrap_or('\0');
    (0..=chars.len())
        .map(|i| CharRead { ch: at(i), next: at(i + 1), symbol_number: i as u32, line_number: 1 })
        .collect()
}

fn int_natives() -> NativeTypes {
    NativeTypes { names: vec![("int".to_string(), LeBlancType::Int)] }
}

#[test]
fn create_tokens_cuts_and_types_a_declaration() {
    let typer = create_tokens(&reads_of("func go() { int x = 5; }"), "src.lb".to_string(), &int_natives());
    let texts: Vec<String> = typer.typed_tokens.iter().map(|t| t.as_string()).collect();
    assert_eq!(texts, vec!["func", "go", "(", ")", "{", "int", "x", "=", "5", ";", "}"]);
    let roles: Vec<CompileVocab> = typer.typed_tokens.iter().map(|t| t.lang_type()).collect();
    assert_eq!(roles[5], CompileVocab::TYPE(LeBlancType::Int));
    assert_eq!(roles[6], CompileVocab::VARIABLE(LeBlancType::Int));
    assert!(typer.errors.is_empty());
    assert_eq!(typer.path, "src.lb");
    // each typed token keeps the symbols it was read from
    assert_eq!(typer.typed_tokens[1].token().first_symbol_or_empty().symbol_number(), 5);
    assert_eq!(typer.typed_tokens[1].token().last_symbol_or_empty().symbol_number(), 6);
}

#[test]
fn create_tokens_reports_an_unclosed_quotation_first() {
    let typer = create_tokens(&reads_of("s = \"ab"), "src.lb".to_string(), &int_natives());
    assert!(!typer.errors.is_empty());
    match typer.errors[0] {
        ErrorStub::ParseImbalancedQuotation(line, symbol) => {
            assert_eq!(line, 1);
            assert_eq!(symbol, 4);
        }
        _ => panic!("wrong error"),
    }
}

#[test]
fn create_tokens_of_nothing_is_empty() {
    let typer = create_tokens(&Vec::new(), "src.lb".to_string(), &int_natives());
    assert!(typer.typed_tokens.is_empty());
    assert!(typer.errors.is_empty());
}

#[test]
fn try_create_tokens_refuses_a_leading_parenthesis() {
    assert!(try_create_tokens(&reads_of("( x"), "src.lb".to_string(), &int_natives()).is_none());
    let typer = try_create_tokens(&reads_of("func go() { }"), "src.lb".to_string(), &int_natives()).unwrap();
    assert_eq!(typer.path, "src.lb");
    assert_eq!(typer.typed_tokens.len(), 6);
}
