//! The vocabulary of the compiler: what a token can be, boundaries, special
//! markers and function roles.
use vstd::prelude::*;
use crate::compiler::lang::leblanc_keywords::LBKeyword;
use crate::compiler::lang::leblanc_operators::LBOperator;
use crate::native_types::LeBlancType;
use crate::text::{str_eq, str_to_lowercase, unicode_lowercase};

verus! {

/// The role of a token in the program.
#[derive(Clone, Copy, Debug, PartialEq, Eq, Structural, Hash)]
pub enum CompileVocab {
    CONSTANT(LeBlancType),
    VARIABLE(LeBlancType),
    FUNCTION(FunctionType),
    OPERATOR(LBOperator),
    SPECIAL(Specials, u16),
    KEYWORD(LBKeyword),
    MODULE(u64),
    BOUNDARY(BoundaryType),
    CONSTRUCTOR(LeBlancType),
    EXTENSION(ExtensionType),
    CLASS(LeBlancType),
    TYPE(LeBlancType),
    UNKNOWN(LeBlancType),
}

pub enum QuotationTypes {
    Single,
    Double,
}

/// The part a function name plays where it stands.
#[derive(Clone, Copy, Debug, PartialEq, Eq, Structural, Hash, PartialOrd, Ord)]
pub enum FunctionType {
    Header,
    Call,
    Reference,
    ReferenceCall,
    DNE,
}

pub open spec fn spec_function_type_value(s: Seq<char>) -> FunctionType {
    if s == "header"@ {
        FunctionType::Header
    } else if s == "call"@ {
        FunctionType::Call
    } else if s == "reference"@ {
        FunctionType::Reference
    } else {
        FunctionType::DNE
    }
}

pub fn function_type_value(string: &str) -> (r: FunctionType)
    ensures
        r == spec_function_type_value(string@),
{
    if str_eq(string, "header") {
        FunctionType::Header
    } else if str_eq(string, "call") {
        FunctionType::Call
    } else if str_eq(string, "reference") {
        FunctionType::Reference
    } else {
        FunctionType::DNE
    }
}

/// The printed form of a function role: only headers and calls have names of their own.
pub open spec fn spec_function_type_name(f: FunctionType) -> Seq<char> {
    match f {
        FunctionType::Header => "header"@,
        FunctionType::Call => "call"@,
        _ => "DNE"@,
    }
}

impl FunctionType {
    pub fn to_string(&self) -> (r: String)
        ensures
            r@ == spec_function_type_name(*self),
    {
        let s = match self {
            FunctionType::Header => "header",
            FunctionType::Call => "call",
            _ => "DNE",
        };
        String::from_str(s)
    }
}

#[derive(Clone, Copy, Debug, PartialEq, Eq, Structural, Hash)]
pub enum ExtensionType {
    ExtensionTypeImport(u32),
    ExtensionTypeExport(u32),
    ExtensionTypeParam(LeBlancType),
}

/// The delimiters that always stand as tokens of their own.
#[derive(Clone, Copy, Debug, PartialEq, Eq, Structural, Hash)]
pub enum BoundaryType {
    BracketOpen,
    BracketClosed,
    BraceOpen,
    BraceClosed,
    ParenthesisOpen,
    ParenthesisClosed,
    Semicolon,
    VerticalLine,
    Comma,
    DNE,
}

pub open spec fn spec_boundary_value(ch: char) -> BoundaryType {
    if ch == '[' {
        BoundaryType::BracketOpen
    } else if ch == ']' {
        BoundaryType::BracketClosed
    } else if ch == '{' {
        BoundaryType::BraceOpen
    } else if ch == '}' {
        BoundaryType::BraceClosed
    } else if ch == '(' {
        BoundaryType::ParenthesisOpen
    } else if ch == ')' {
        BoundaryType::ParenthesisClosed
    } else if ch == '|' {
        BoundaryType::VerticalLine
    } else if ch == ',' {
        BoundaryType::Comma
    } else if ch == ';' {
        BoundaryType::Semicolon
    } else {
        BoundaryType::DNE
    }
}

pub fn boundary_value(ch: &char) -> (r: BoundaryType)
    ensures
        r == spec_boundary_value(*ch),
{
    let c = *ch;
    if c == '[' {
        BoundaryType::BracketOpen
    } else if c == ']' {
        BoundaryType::BracketClosed
    } else if c == '{' {
        BoundaryType::BraceOpen
    } else if c == '}' {
        BoundaryType::BraceClosed
    } else if c == '(' {
        BoundaryType::ParenthesisOpen
    } else if c == ')' {
        BoundaryType::ParenthesisClosed
    } else if c == '|' {
        BoundaryType::VerticalLine
    } else if c == ',' {
        BoundaryType::Comma
    } else if c == ';' {
        BoundaryType::Semicolon
    } else {
        BoundaryType::DNE
    }
}

/// The printed form of a boundary.
pub open spec fn spec_boundary_name(b: BoundaryType) -> Seq<char> {
    match b {
        BoundaryType::BracketOpen => "["@,
        BoundaryType::BracketClosed => "]"@,
        BoundaryType::BraceOpen => "{"@,
        BoundaryType::BraceClosed => "}"@,
        BoundaryType::ParenthesisOpen => "("@,
        BoundaryType::ParenthesisClosed => ")"@,
        BoundaryType::Semicolon => ";"@,
        BoundaryType::Comma => ","@,
        BoundaryType::VerticalLine => "|"@,
        BoundaryType::DNE => "dne"@,
    }
}

impl BoundaryType {
    pub fn to_string(&self) -> (r: String)
        ensures
            r@ == spec_boundary_name(*self),
    {
        let s = match self {
            BoundaryType::BracketOpen => "[",
            BoundaryType::BracketClosed => "]",
            BoundaryType::BraceOpen => "{",
            BoundaryType::BraceClosed => "}",
            BoundaryType::ParenthesisOpen => "(",
            BoundaryType::ParenthesisClosed => ")",
            BoundaryType::Semicolon => ";",
            BoundaryType::Comma => ",",
            BoundaryType::VerticalLine => "|",
            BoundaryType::DNE => "dne",
        };
        String::from_str(s)
    }
}

/// Whether a role carries a LeBlanc type that `extract_native_type` can hand out.
pub open spec fn holds_native_type(v: CompileVocab) -> bool {
    v is CONSTANT || v is VARIABLE || v is CONSTRUCTOR || v is TYPE || v is UNKNOWN
}

/// The LeBlanc type carried by a role that holds one.
pub open spec fn spec_native_type(v: CompileVocab) -> LeBlancType
    recommends
        holds_native_type(v),
{
    match v {
        CompileVocab::CONSTANT(t) => t,
        CompileVocab::VARIABLE(t) => t,
        CompileVocab::CONSTRUCTOR(t) => t,
        CompileVocab::TYPE(t) => t,
        CompileVocab::UNKNOWN(t) => t,
        _ => LeBlancType::Null,
    }
}

/// The name of the kind of a role, as `matches` compares it.
pub open spec fn spec_vocab_kind(v: CompileVocab) -> Seq<char> {
    match v {
        CompileVocab::CONSTANT(_) => "constant"@,
        CompileVocab::VARIABLE(_) => "variable"@,
        CompileVocab::FUNCTION(_) => "function"@,
        CompileVocab::OPERATOR(_) => "operator"@,
        CompileVocab::SPECIAL(..) => "special"@,
        CompileVocab::KEYWORD(_) => "keyword"@,
        CompileVocab::MODULE(_) => "module"@,
        CompileVocab::BOUNDARY(_) => "boundary"@,
        CompileVocab::CONSTRUCTOR(_) => "constructor"@,
        CompileVocab::EXTENSION(_) => "extension"@,
        CompileVocab::TYPE(_) => "type"@,
        CompileVocab::UNKNOWN(_) => "unknown"@,
        CompileVocab::CLASS(_) => "class"@,
    }
}

/// Whether a role stores a LeBlanc type: every role but functions, operators,
/// specials, keywords, modules and boundaries.
pub open spec fn spec_stores_native_type(v: CompileVocab) -> bool {
    !(v is FUNCTION || v is OPERATOR || v is SPECIAL || v is KEYWORD || v is MODULE
        || v is BOUNDARY)
}

/// How tightly a token binds when the token stack is built: lower binds first.
pub open spec fn spec_priority(v: CompileVocab) -> u16 {
    match v {
        CompileVocab::KEYWORD(_) => 1,
        CompileVocab::OPERATOR(op) => {
            if op == LBOperator::Assign {
                1
            } else if op == LBOperator::AssignEach {
                5
            } else if op == LBOperator::Increment {
                9
            } else if op == LBOperator::QuickList {
                8
            } else {
                10
            }
        },
        CompileVocab::MODULE(_) => 20,
        CompileVocab::CLASS(_) => 30,
        CompileVocab::EXTENSION(_) => 40,
        CompileVocab::FUNCTION(_) => 50,
        CompileVocab::CONSTRUCTOR(_) => 60,
        CompileVocab::TYPE(_) => 70,
        CompileVocab::VARIABLE(_) => 100,
        CompileVocab::CONSTANT(_) => 100,
        CompileVocab::BOUNDARY(b) => if b == BoundaryType::Semicolon {
            0
        } else {
            110
        },
        CompileVocab::SPECIAL(_, p) => p,
        CompileVocab::UNKNOWN(_) => 130,
    }
}

impl CompileVocab {
    pub fn extract_native_type(&self) -> (r: &LeBlancType)
        requires
            holds_native_type(*self),
        ensures
            *r == spec_native_type(*self),
    {
        match self {
            CompileVocab::CONSTANT(native_type) => native_type,
            CompileVocab::VARIABLE(native_type) => native_type,
            CompileVocab::CONSTRUCTOR(native_type) => native_type,
            CompileVocab::TYPE(native_type) => native_type,
            CompileVocab::UNKNOWN(native_type) => native_type,
            _ => {
                assert(false);
                &LeBlancType::Null
            },
        }
    }

    /// Whether `pat`, lower-cased, names the kind of this role.
    pub fn matches(&self, pat: &str) -> (r: bool)
        ensures
            r == (unicode_lowercase(pat@) == spec_vocab_kind(*self)),
    {
        let lower = str_to_lowercase(pat);
        let kind = match self {
            CompileVocab::CONSTANT(_) => "constant",
            CompileVocab::VARIABLE(_) => "variable",
            CompileVocab::FUNCTION(_) => "function",
            CompileVocab::OPERATOR(_) => "operator",
            CompileVocab::SPECIAL(..) => "special",
            CompileVocab::KEYWORD(_) => "keyword",
            CompileVocab::MODULE(_) => "module",
            CompileVocab::BOUNDARY(_) => "boundary",
            CompileVocab::CONSTRUCTOR(_) => "constructor",
            CompileVocab::EXTENSION(_) => "extension",
            CompileVocab::TYPE(_) => "type",
            CompileVocab::UNKNOWN(_) => "unknown",
            CompileVocab::CLASS(_) => "class",
        };
        str_eq(lower.as_str(), kind)
    }

    pub fn stores_native_type(&self) -> (r: bool)
        ensures
            r == spec_stores_native_type(*self),
    {
        !(matches!(self, CompileVocab::FUNCTION(_)) || matches!(self, CompileVocab::OPERATOR(_))
            || matches!(self, CompileVocab::SPECIAL(..)) || matches!(self, CompileVocab::KEYWORD(_))
            || matches!(self, CompileVocab::MODULE(_)) || matches!(self, CompileVocab::BOUNDARY(_)))
    }

    pub fn priority(&self) -> (r: u16)
        ensures
            r == spec_priority(*self),
    {
        match self {
            CompileVocab::KEYWORD(_) => 1,
            CompileVocab::OPERATOR(op) => {
                match *op {
                    LBOperator::Assign => 1,
                    LBOperator::AssignEach => 5,
                    LBOperator::Increment => 9,
                    LBOperator::QuickList => 8,
                    _ => 10,
                }
            },
            CompileVocab::MODULE(_) => 20,
            CompileVocab::CLASS(_) => 30,
            CompileVocab::EXTENSION(_) => 40,
            CompileVocab::FUNCTION(_) => 50,
            CompileVocab::CONSTRUCTOR(_) => 60,
            CompileVocab::TYPE(_) => 70,
            CompileVocab::VARIABLE(_) => 100,
            CompileVocab::CONSTANT(_) => 100,
            CompileVocab::BOUNDARY(boundary) => {
                match *boundary {
                    BoundaryType::Semicolon => 0,
                    _ => 110,
                }
            },
            CompileVocab::SPECIAL(_, priority) => *priority,
            CompileVocab::UNKNOWN(_) => 130,
        }
    }
}

/// Markers made of punctuation that are not operators.
#[derive(Clone, Copy, Debug, PartialEq, Eq, Structural, Hash)]
pub enum Specials {
    InlineComment,
    BlockCommentOpener,
    BlockCommentCloser,
    TagOpener,
    TagCloser,
    RangeMarker,
    Dot,
    StackAppend,
    SliceStart,
    LambdaMarker,
    DNE,
}

pub open spec fn spec_special_value(s: Seq<char>) -> Specials {
    if s == "//"@ {
        Specials::InlineComment
    } else if s == "/*"@ {
        Specials::BlockCommentOpener
    } else if s == "*/"@ {
        Specials::BlockCommentCloser
    } else if s == "<|"@ {
        Specials::TagOpener
    } else if s == "|>"@ {
        Specials::TagCloser
    } else if s == "."@ {
        Specials::Dot
    } else if s == "->"@ {
        Specials::StackAppend
    } else if s == "|"@ {
        Specials::LambdaMarker
    } else {
        Specials::DNE
    }
}

pub fn is_special(string: &str) -> (r: bool)
    ensures
        r == (spec_special_value(string@) != Specials::DNE),
{
    special_value(string) != Specials::DNE
}

pub fn special_value(string: &str) -> (r: Specials)
    ensures
        r == spec_special_value(string@),
{
    if str_eq(string, "//") {
        Specials::InlineComment
    } else if str_eq(string, "/*") {
        Specials::BlockCommentOpener
    } else if str_eq(string, "*/") {
        Specials::BlockCommentCloser
    } else if str_eq(string, "<|") {
        Specials::TagOpener
    } else if str_eq(string, "|>") {
        Specials::TagCloser
    } else if str_eq(string, ".") {
        Specials::Dot
    } else if str_eq(string, "->") {
        Specials::StackAppend
    } else if str_eq(string, "|") {
        Specials::LambdaMarker
    } else {
        Specials::DNE
    }
}

/// The printed form of a special marker.
pub open spec fn spec_special_name(s: Specials) -> Seq<char> {
    match s {
        Specials::InlineComment => "//"@,
        Specials::BlockCommentOpener => "/*"@,
        Specials::BlockCommentCloser => "*/"@,
        Specials::TagOpener => "<|"@,
        Specials::TagCloser => "|>"@,
        Specials::Dot => "."@,
        Specials::RangeMarker => "to"@,
        Specials::StackAppend => "->"@,
        Specials::SliceStart => "["@,
        Specials::LambdaMarker => "|"@,
        Specials::DNE => "dne"@,
    }
}

impl Specials {
    pub fn to_string(&self) -> (r: String)
        ensures
            r@ == spec_special_name(*self),
    {
        let s = match self {
            Specials::InlineComment => "//",
            Specials::BlockCommentOpener => "/*",
            Specials::BlockCommentCloser => "*/",
            Specials::TagOpener => "<|",
            Specials::TagCloser => "|>",
            Specials::Dot => ".",
            Specials::RangeMarker => "to",
            Specials::StackAppend => "->",
            Specials::SliceStart => "[",
            Specials::LambdaMarker => "|",
            Specials::DNE => "dne",
        };
        String::from_str(s)
    }
}


/// No special word begins with a whitespace character.
pub proof fn special_words_start_with_no_whitespace(s: Seq<char>)
    requires
        s.len() > 0,
        crate::text::unicode_whitespace(s[0]),
    ensures
        spec_special_value(s) == Specials::DNE,
{
    reveal_strlit("//");
    assert("//"@ =~= seq!['/', '/']);
    reveal_strlit("/*");
    assert("/*"@ =~= seq!['/', '*']);
    reveal_strlit("*/");
    assert("*/"@ =~= seq!['*', '/']);
    reveal_strlit("<|");
    assert("<|"@ =~= seq!['<', '|']);
    reveal_strlit("|>");
    assert("|>"@ =~= seq!['|', '>']);
    reveal_strlit(".");
    assert("."@ =~= seq!['.']);
    reveal_strlit("->");
    assert("->"@ =~= seq!['-', '>']);
    reveal_strlit("|");
    assert("|"@ =~= seq!['|']);
    if spec_special_value(s) != Specials::DNE {
        assert(s[0] == '/' || s[0] == '*' || s[0] == '<' || s[0] == '|' || s[0] == '.' || s[0] == '-');
    }
}

} // verus!
