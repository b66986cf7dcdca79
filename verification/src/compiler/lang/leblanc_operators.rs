//! The operators of the language.
use vstd::prelude::*;
use crate::text::str_eq;

verus! {

#[derive(Clone, Copy, Debug, PartialEq, Eq, Structural, Hash)]
pub enum LBOperator {
    Plus,
    Minus,
    Multiply,
    Divide,
    Power,
    Modulo,
    Not,
    Assign,
    AssignEach,
    Inverse,
    NotEquals,
    Equals,
    GreaterThan,
    LessThan,
    GreaterThanOrEqual,
    LessThanOrEqual,
    LShift,
    RShift,
    Match,
    QuickList,
    Increment,
    Cast,
    NULL,
}

/// The operator that a word spells, or `NULL` when it spells none.
pub open spec fn spec_operator_type(value: Seq<char>) -> LBOperator {
    if value == "+"@ {
        LBOperator::Plus
    } else if value == "-"@ {
        LBOperator::Minus
    } else if value == "*"@ {
        LBOperator::Multiply
    } else if value == "/"@ {
        LBOperator::Divide
    } else if value == "**"@ {
        LBOperator::Power
    } else if value == "%"@ {
        LBOperator::Modulo
    } else if value == "!"@ {
        LBOperator::Not
    } else if value == "~"@ {
        LBOperator::Inverse
    } else if value == "="@ {
        LBOperator::Assign
    } else if value == "=="@ {
        LBOperator::Equals
    } else if value == "!="@ {
        LBOperator::NotEquals
    } else if value == ">"@ {
        LBOperator::GreaterThan
    } else if value == "<"@ {
        LBOperator::LessThan
    } else if value == ">="@ {
        LBOperator::GreaterThanOrEqual
    } else if value == "<="@ {
        LBOperator::LessThanOrEqual
    } else if value == "<<"@ {
        LBOperator::LShift
    } else if value == ">>"@ {
        LBOperator::RShift
    } else if value == "=>"@ {
        LBOperator::Match
    } else if value == "to"@ {
        LBOperator::QuickList
    } else if value == "in"@ {
        LBOperator::AssignEach
    } else if value == "by"@ {
        LBOperator::Increment
    } else if value == "as"@ {
        LBOperator::Cast
    } else {
        LBOperator::NULL
    }
}

pub fn is_operator(value: &str) -> (r: bool)
    ensures
        r == (spec_operator_type(value@) != LBOperator::NULL),
{
    operator_type(value) != LBOperator::NULL
}

pub fn operator_type(value: &str) -> (r: LBOperator)
    ensures
        r == spec_operator_type(value@),
{
    if str_eq(value, "+") {
        LBOperator::Plus
    } else if str_eq(value, "-") {
        LBOperator::Minus
    } else if str_eq(value, "*") {
        LBOperator::Multiply
    } else if str_eq(value, "/") {
        LBOperator::Divide
    } else if str_eq(value, "**") {
        LBOperator::Power
    } else if str_eq(value, "%") {
        LBOperator::Modulo
    } else if str_eq(value, "!") {
        LBOperator::Not
    } else if str_eq(value, "~") {
        LBOperator::Inverse
    } else if str_eq(value, "=") {
        LBOperator::Assign
    } else if str_eq(value, "==") {
        LBOperator::Equals
    } else if str_eq(value, "!=") {
        LBOperator::NotEquals
    } else if str_eq(value, ">") {
        LBOperator::GreaterThan
    } else if str_eq(value, "<") {
        LBOperator::LessThan
    } else if str_eq(value, ">=") {
        LBOperator::GreaterThanOrEqual
    } else if str_eq(value, "<=") {
        LBOperator::LessThanOrEqual
    } else if str_eq(value, "<<") {
        LBOperator::LShift
    } else if str_eq(value, ">>") {
        LBOperator::RShift
    } else if str_eq(value, "=>") {
        LBOperator::Match
    } else if str_eq(value, "to") {
        LBOperator::QuickList
    } else if str_eq(value, "in") {
        LBOperator::AssignEach
    } else if str_eq(value, "by") {
        LBOperator::Increment
    } else if str_eq(value, "as") {
        LBOperator::Cast
    } else {
        LBOperator::NULL
    }
}

/// The printed form of an operator.
pub open spec fn spec_operator_name(op: LBOperator) -> Seq<char> {
    match op {
        LBOperator::Plus => "+"@,
        LBOperator::Minus => "-"@,
        LBOperator::Multiply => "*"@,
        LBOperator::Divide => "/"@,
        LBOperator::Power => "**"@,
        LBOperator::Modulo => "%"@,
        LBOperator::Not => "!"@,
        LBOperator::Assign => "="@,
        LBOperator::AssignEach => "in"@,
        LBOperator::Inverse => "~"@,
        LBOperator::NotEquals => "!="@,
        LBOperator::Equals => "=="@,
        LBOperator::GreaterThan => ">"@,
        LBOperator::LessThan => "<"@,
        LBOperator::GreaterThanOrEqual => ">="@,
        LBOperator::LessThanOrEqual => "<="@,
        LBOperator::LShift => "<<"@,
        LBOperator::RShift => ">>"@,
        LBOperator::Match => "=>"@,
        LBOperator::QuickList => "to"@,
        LBOperator::Increment => "by"@,
        LBOperator::Cast => "as"@,
        LBOperator::NULL => "null"@,
    }
}

impl LBOperator {
    /// The printed form of the operator.
    pub fn to_string(&self) -> (r: String)
        ensures
            r@ == spec_operator_name(*self),
    {
        let s = match self {
            LBOperator::Plus => "+",
            LBOperator::Minus => "-",
            LBOperator::Multiply => "*",
            LBOperator::Divide => "/",
            LBOperator::Power => "**",
            LBOperator::Modulo => "%",
            LBOperator::Not => "!",
            LBOperator::Assign => "=",
            LBOperator::AssignEach => "in",
            LBOperator::Inverse => "~",
            LBOperator::NotEquals => "!=",
            LBOperator::Equals => "==",
            LBOperator::GreaterThan => ">",
            LBOperator::LessThan => "<",
            LBOperator::GreaterThanOrEqual => ">=",
            LBOperator::LessThanOrEqual => "<=",
            LBOperator::LShift => "<<",
            LBOperator::RShift => ">>",
            LBOperator::Match => "=>",
            LBOperator::QuickList => "to",
            LBOperator::Increment => "by",
            LBOperator::Cast => "as",
            LBOperator::NULL => "null",
        };
        String::from_str(s)
    }
}

/// Every operator reads back from its printed form: `operator_type` of what `to_string`
/// prints is the operator itself (`NULL` prints as "null", which spells no operator).
pub proof fn printed_operators_read_back(op: LBOperator)
    ensures
        spec_operator_type(spec_operator_name(op)) == op,
{
    reveal_strlit("+");
    assert("+"@.len() == 1);
    assert("+"@[0] == '+');
    reveal_strlit("-");
    assert("-"@.len() == 1);
    assert("-"@[0] == '-');
    reveal_strlit("*");
    assert("*"@.len() == 1);
    assert("*"@[0] == '*');
    reveal_strlit("/");
    assert("/"@.len() == 1);
    assert("/"@[0] == '/');
    reveal_strlit("**");
    assert("**"@.len() == 2);
    assert("**"@[0] == '*');
    assert("**"@[1] == '*');
    reveal_strlit("%");
    assert("%"@.len() == 1);
    assert("%"@[0] == '%');
    reveal_strlit("!");
    assert("!"@.len() == 1);
    assert("!"@[0] == '!');
    reveal_strlit("~");
    assert("~"@.len() == 1);
    assert("~"@[0] == '~');
    reveal_strlit("=");
    assert("="@.len() == 1);
    assert("="@[0] == '=');
    reveal_strlit("==");
    assert("=="@.len() == 2);
    assert("=="@[0] == '=');
    assert("=="@[1] == '=');
    reveal_strlit("!=");
    assert("!="@.len() == 2);
    assert("!="@[0] == '!');
    assert("!="@[1] == '=');
    reveal_strlit(">");
    assert(">"@.len() == 1);
    assert(">"@[0] == '>');
    reveal_strlit("<");
    assert("<"@.len() == 1);
    assert("<"@[0] == '<');
    reveal_strlit(">=");
    assert(">="@.len() == 2);
    assert(">="@[0] == '>');
    assert(">="@[1] == '=');
    reveal_strlit("<=");
    assert("<="@.len() == 2);
    assert("<="@[0] == '<');
    assert("<="@[1] == '=');
    reveal_strlit("<<");
    assert("<<"@.len() == 2);
    assert("<<"@[0] == '<');
    assert("<<"@[1] == '<');
    reveal_strlit(">>");
    assert(">>"@.len() == 2);
    assert(">>"@[0] == '>');
    assert(">>"@[1] == '>');
    reveal_strlit("=>");
    assert("=>"@.len() == 2);
    assert("=>"@[0] == '=');
    assert("=>"@[1] == '>');
    reveal_strlit("to");
    assert("to"@.len() == 2);
    assert("to"@[0] == 't');
    assert("to"@[1] == 'o');
    reveal_strlit("in");
    assert("in"@.len() == 2);
    assert("in"@[0] == 'i');
    assert("in"@[1] == 'n');
    reveal_strlit("by");
    assert("by"@.len() == 2);
    assert("by"@[0] == 'b');
    assert("by"@[1] == 'y');
    reveal_strlit("as");
    assert("as"@.len() == 2);
    assert("as"@[0] == 'a');
    assert("as"@[1] == 's');
    reveal_strlit("null");
    assert("null"@.len() == 4);
    assert("null"@[0] == 'n');
    assert("null"@[1] == 'u');
    assert("null"@[2] == 'l');
    assert("null"@[3] == 'l');
}


/// The operator words, character by character.
pub proof fn operator_words_spelled()
    ensures
        "+"@ == seq!['+'],
        "-"@ == seq!['-'],
        "*"@ == seq!['*'],
        "/"@ == seq!['/'],
        "**"@ == seq!['*', '*'],
        "%"@ == seq!['%'],
        "!"@ == seq!['!'],
        "~"@ == seq!['~'],
        "="@ == seq!['='],
        "=="@ == seq!['=', '='],
        "!="@ == seq!['!', '='],
        ">"@ == seq!['>'],
        "<"@ == seq!['<'],
        ">="@ == seq!['>', '='],
        "<="@ == seq!['<', '='],
        "<<"@ == seq!['<', '<'],
        ">>"@ == seq!['>', '>'],
        "=>"@ == seq!['=', '>'],
        "to"@ == seq!['t', 'o'],
        "in"@ == seq!['i', 'n'],
        "by"@ == seq!['b', 'y'],
        "as"@ == seq!['a', 's'],
{
    reveal_strlit("+");
    assert("+"@ =~= seq!['+']);
    reveal_strlit("-");
    assert("-"@ =~= seq!['-']);
    reveal_strlit("*");
    assert("*"@ =~= seq!['*']);
    reveal_strlit("/");
    assert("/"@ =~= seq!['/']);
    reveal_strlit("**");
    assert("**"@ =~= seq!['*', '*']);
    reveal_strlit("%");
    assert("%"@ =~= seq!['%']);
    reveal_strlit("!");
    assert("!"@ =~= seq!['!']);
    reveal_strlit("~");
    assert("~"@ =~= seq!['~']);
    reveal_strlit("=");
    assert("="@ =~= seq!['=']);
    reveal_strlit("==");
    assert("=="@ =~= seq!['=', '=']);
    reveal_strlit("!=");
    assert("!="@ =~= seq!['!', '=']);
    reveal_strlit(">");
    assert(">"@ =~= seq!['>']);
    reveal_strlit("<");
    assert("<"@ =~= seq!['<']);
    reveal_strlit(">=");
    assert(">="@ =~= seq!['>', '=']);
    reveal_strlit("<=");
    assert("<="@ =~= seq!['<', '=']);
    reveal_strlit("<<");
    assert("<<"@ =~= seq!['<', '<']);
    reveal_strlit(">>");
    assert(">>"@ =~= seq!['>', '>']);
    reveal_strlit("=>");
    assert("=>"@ =~= seq!['=', '>']);
    reveal_strlit("to");
    assert("to"@ =~= seq!['t', 'o']);
    reveal_strlit("in");
    assert("in"@ =~= seq!['i', 'n']);
    reveal_strlit("by");
    assert("by"@ =~= seq!['b', 'y']);
    reveal_strlit("as");
    assert("as"@ =~= seq!['a', 's']);
}

/// No operator word begins with a whitespace character.
pub proof fn operator_words_start_with_no_whitespace(s: Seq<char>)
    requires
        s.len() > 0,
        crate::text::unicode_whitespace(s[0]),
    ensures
        spec_operator_type(s) == LBOperator::NULL,
{
    operator_words_spelled();
}

/// The comparison, shift, assignment and match operators are read from exactly these
/// words: `>` greater than, `<` less than, `>=` greater than or equal, `<=` less than or
/// equal, `==` equals, `!=` not equals, `<<` left shift, `>>` right shift, `=` assign and
/// `=>` match; no other word is read as one of them.
pub proof fn comparison_operators_are_spelled(s: Seq<char>)
    ensures
        (spec_operator_type(s) == LBOperator::GreaterThan) <==> s == seq!['>'],
        (spec_operator_type(s) == LBOperator::LessThan) <==> s == seq!['<'],
        (spec_operator_type(s) == LBOperator::GreaterThanOrEqual) <==> s == seq!['>', '='],
        (spec_operator_type(s) == LBOperator::LessThanOrEqual) <==> s == seq!['<', '='],
        (spec_operator_type(s) == LBOperator::Equals) <==> s == seq!['=', '='],
        (spec_operator_type(s) == LBOperator::NotEquals) <==> s == seq!['!', '='],
        (spec_operator_type(s) == LBOperator::LShift) <==> s == seq!['<', '<'],
        (spec_operator_type(s) == LBOperator::RShift) <==> s == seq!['>', '>'],
        (spec_operator_type(s) == LBOperator::Assign) <==> s == seq!['='],
        (spec_operator_type(s) == LBOperator::Match) <==> s == seq!['=', '>'],
{
    operator_words_spelled();
    if s == seq!['>'] {
        assert(s != "+"@) by { assert(s[0] != "+"@[0]); }
        assert(s != "-"@) by { assert(s[0] != "-"@[0]); }
        assert(s != "*"@) by { assert(s[0] != "*"@[0]); }
        assert(s != "/"@) by { assert(s[0] != "/"@[0]); }
        assert(s != "**"@) by { assert(s.len() != "**"@.len()); }
        assert(s != "%"@) by { assert(s[0] != "%"@[0]); }
        assert(s != "!"@) by { assert(s[0] != "!"@[0]); }
        assert(s != "~"@) by { assert(s[0] != "~"@[0]); }
        assert(s != "="@) by { assert(s[0] != "="@[0]); }
        assert(s != "=="@) by { assert(s.len() != "=="@.len()); }
        assert(s != "!="@) by { assert(s.len() != "!="@.len()); }
        assert(spec_operator_type(s) == LBOperator::GreaterThan);
    } else if s == seq!['<'] {
        assert(s != "+"@) by { assert(s[0] != "+"@[0]); }
        assert(s != "-"@) by { assert(s[0] != "-"@[0]); }
        assert(s != "*"@) by { assert(s[0] != "*"@[0]); }
        assert(s != "/"@) by { assert(s[0] != "/"@[0]); }
        assert(s != "**"@) by { assert(s.len() != "**"@.len()); }
        assert(s != "%"@) by { assert(s[0] != "%"@[0]); }
        assert(s != "!"@) by { assert(s[0] != "!"@[0]); }
        assert(s != "~"@) by { assert(s[0] != "~"@[0]); }
        assert(s != "="@) by { assert(s[0] != "="@[0]); }
        assert(s != "=="@) by { assert(s.len() != "=="@.len()); }
        assert(s != "!="@) by { assert(s.len() != "!="@.len()); }
        assert(s != ">"@) by { assert(s[0] != ">"@[0]); }
        assert(spec_operator_type(s) == LBOperator::LessThan);
    } else if s == seq!['>', '='] {
        assert(s != "+"@) by { assert(s.len() != "+"@.len()); }
        assert(s != "-"@) by { assert(s.len() != "-"@.len()); }
        assert(s != "*"@) by { assert(s.len() != "*"@.len()); }
        assert(s != "/"@) by { assert(s.len() != "/"@.len()); }
        assert(s != "**"@) by { assert(s[0] != "**"@[0]); }
        assert(s != "%"@) by { assert(s.len() != "%"@.len()); }
        assert(s != "!"@) by { assert(s.len() != "!"@.len()); }
        assert(s != "~"@) by { assert(s.len() != "~"@.len()); }
        assert(s != "="@) by { assert(s.len() != "="@.len()); }
        assert(s != "=="@) by { assert(s[0] != "=="@[0]); }
        assert(s != "!="@) by { assert(s[0] != "!="@[0]); }
        assert(s != ">"@) by { assert(s.len() != ">"@.len()); }
        assert(s != "<"@) by { assert(s.len() != "<"@.len()); }
        assert(spec_operator_type(s) == LBOperator::GreaterThanOrEqual);
    } else if s == seq!['<', '='] {
        assert(s != "+"@) by { assert(s.len() != "+"@.len()); }
        assert(s != "-"@) by { assert(s.len() != "-"@.len()); }
        assert(s != "*"@) by { assert(s.len() != "*"@.len()); }
        assert(s != "/"@) by { assert(s.len() != "/"@.len()); }
        assert(s != "**"@) by { assert(s[0] != "**"@[0]); }
        assert(s != "%"@) by { assert(s.len() != "%"@.len()); }
        assert(s != "!"@) by { assert(s.len() != "!"@.len()); }
        assert(s != "~"@) by { assert(s.len() != "~"@.len()); }
        assert(s != "="@) by { assert(s.len() != "="@.len()); }
        assert(s != "=="@) by { assert(s[0] != "=="@[0]); }
        assert(s != "!="@) by { assert(s[0] != "!="@[0]); }
        assert(s != ">"@) by { assert(s.len() != ">"@.len()); }
        assert(s != "<"@) by { assert(s.len() != "<"@.len()); }
        assert(s != ">="@) by { assert(s[0] != ">="@[0]); }
        assert(spec_operator_type(s) == LBOperator::LessThanOrEqual);
    } else if s == seq!['=', '='] {
        assert(s != "+"@) by { assert(s.len() != "+"@.len()); }
        assert(s != "-"@) by { assert(s.len() != "-"@.len()); }
        assert(s != "*"@) by { assert(s.len() != "*"@.len()); }
        assert(s != "/"@) by { assert(s.len() != "/"@.len()); }
        assert(s != "**"@) by { assert(s[0] != "**"@[0]); }
        assert(s != "%"@) by { assert(s.len() != "%"@.len()); }
        assert(s != "!"@) by { assert(s.len() != "!"@.len()); }
        assert(s != "~"@) by { assert(s.len() != "~"@.len()); }
        assert(s != "="@) by { assert(s.len() != "="@.len()); }
        assert(spec_operator_type(s) == LBOperator::Equals);
    } else if s == seq!['!', '='] {
        assert(s != "+"@) by { assert(s.len() != "+"@.len()); }
        assert(s != "-"@) by { assert(s.len() != "-"@.len()); }
        assert(s != "*"@) by { assert(s.len() != "*"@.len()); }
        assert(s != "/"@) by { assert(s.len() != "/"@.len()); }
        assert(s != "**"@) by { assert(s[0] != "**"@[0]); }
        assert(s != "%"@) by { assert(s.len() != "%"@.len()); }
        assert(s != "!"@) by { assert(s.len() != "!"@.len()); }
        assert(s != "~"@) by { assert(s.len() != "~"@.len()); }
        assert(s != "="@) by { assert(s.len() != "="@.len()); }
        assert(s != "=="@) by { assert(s[0] != "=="@[0]); }
        assert(spec_operator_type(s) == LBOperator::NotEquals);
    } else if s == seq!['<', '<'] {
        assert(s != "+"@) by { assert(s.len() != "+"@.len()); }
        assert(s != "-"@) by { assert(s.len() != "-"@.len()); }
        assert(s != "*"@) by { assert(s.len() != "*"@.len()); }
        assert(s != "/"@) by { assert(s.len() != "/"@.len()); }
        assert(s != "**"@) by { assert(s[0] != "**"@[0]); }
        assert(s != "%"@) by { assert(s.len() != "%"@.len()); }
        assert(s != "!"@) by { assert(s.len() != "!"@.len()); }
        assert(s != "~"@) by { assert(s.len() != "~"@.len()); }
        assert(s != "="@) by { assert(s.len() != "="@.len()); }
        assert(s != "=="@) by { assert(s[0] != "=="@[0]); }
        assert(s != "!="@) by { assert(s[0] != "!="@[0]); }
        assert(s != ">"@) by { assert(s.len() != ">"@.len()); }
        assert(s != "<"@) by { assert(s.len() != "<"@.len()); }
        assert(s != ">="@) by { assert(s[0] != ">="@[0]); }
        assert(s != "<="@) by { assert(s[1] != "<="@[1]); }
        assert(spec_operator_type(s) == LBOperator::LShift);
    } else if s == seq!['>', '>'] {
        assert(s != "+"@) by { assert(s.len() != "+"@.len()); }
        assert(s != "-"@) by { assert(s.len() != "-"@.len()); }
        assert(s != "*"@) by { assert(s.len() != "*"@.len()); }
        assert(s != "/"@) by { assert(s.len() != "/"@.len()); }
        assert(s != "**"@) by { assert(s[0] != "**"@[0]); }
        assert(s != "%"@) by { assert(s.len() != "%"@.len()); }
        assert(s != "!"@) by { assert(s.len() != "!"@.len()); }
        assert(s != "~"@) by { assert(s.len() != "~"@.len()); }
        assert(s != "="@) by { assert(s.len() != "="@.len()); }
        assert(s != "=="@) by { assert(s[0] != "=="@[0]); }
        assert(s != "!="@) by { assert(s[0] != "!="@[0]); }
        assert(s != ">"@) by { assert(s.len() != ">"@.len()); }
        assert(s != "<"@) by { assert(s.len() != "<"@.len()); }
        assert(s != ">="@) by { assert(s[1] != ">="@[1]); }
        assert(s != "<="@) by { assert(s[0] != "<="@[0]); }
        assert(s != "<<"@) by { assert(s[0] != "<<"@[0]); }
        assert(spec_operator_type(s) == LBOperator::RShift);
    } else if s == seq!['='] {
        assert(s != "+"@) by { assert(s[0] != "+"@[0]); }
        assert(s != "-"@) by { assert(s[0] != "-"@[0]); }
        assert(s != "*"@) by { assert(s[0] != "*"@[0]); }
        assert(s != "/"@) by { assert(s[0] != "/"@[0]); }
        assert(s != "**"@) by { assert(s.len() != "**"@.len()); }
        assert(s != "%"@) by { assert(s[0] != "%"@[0]); }
        assert(s != "!"@) by { assert(s[0] != "!"@[0]); }
        assert(s != "~"@) by { assert(s[0] != "~"@[0]); }
        assert(spec_operator_type(s) == LBOperator::Assign);
    } else if s == seq!['=', '>'] {
        assert(s != "+"@) by { assert(s.len() != "+"@.len()); }
        assert(s != "-"@) by { assert(s.len() != "-"@.len()); }
        assert(s != "*"@) by { assert(s.len() != "*"@.len()); }
        assert(s != "/"@) by { assert(s.len() != "/"@.len()); }
        assert(s != "**"@) by { assert(s[0] != "**"@[0]); }
        assert(s != "%"@) by { assert(s.len() != "%"@.len()); }
        assert(s != "!"@) by { assert(s.len() != "!"@.len()); }
        assert(s != "~"@) by { assert(s.len() != "~"@.len()); }
        assert(s != "="@) by { assert(s.len() != "="@.len()); }
        assert(s != "=="@) by { assert(s[1] != "=="@[1]); }
        assert(s != "!="@) by { assert(s[0] != "!="@[0]); }
        assert(s != ">"@) by { assert(s.len() != ">"@.len()); }
        assert(s != "<"@) by { assert(s.len() != "<"@.len()); }
        assert(s != ">="@) by { assert(s[0] != ">="@[0]); }
        assert(s != "<="@) by { assert(s[0] != "<="@[0]); }
        assert(s != "<<"@) by { assert(s[0] != "<<"@[0]); }
        assert(s != ">>"@) by { assert(s[0] != ">>"@[0]); }
        assert(spec_operator_type(s) == LBOperator::Match);
    }
}

} // verus!
