//! The keywords of the language.
use vstd::prelude::*;
use crate::text::str_eq;

verus! {

#[derive(Clone, Copy, Debug, PartialEq, Eq, Structural, Hash)]
pub enum LBKeyword {
    Using,
    Return,
    Returns,
    Func,
    For,
    While,
    Global,
    Extension,
    NoneKw,
    Of,
    If,
    ElseIf,
    Else,
    SelfRT,
    Class,
    Null,
}

/// The keyword that a word spells, or `Null` when it spells none.
pub open spec fn spec_keyword_value(value: Seq<char>) -> LBKeyword {
    if value == "using"@ {
        LBKeyword::Using
    } else if value == "return"@ {
        LBKeyword::Return
    } else if value == "returns"@ {
        LBKeyword::Returns
    } else if value == "func"@ {
        LBKeyword::Func
    } else if value == "for"@ {
        LBKeyword::For
    } else if value == "while"@ {
        LBKeyword::While
    } else if value == "global"@ {
        LBKeyword::Global
    } else if value == "Extension"@ {
        LBKeyword::Extension
    } else if value == "extension"@ {
        LBKeyword::Extension
    } else if value == "Class"@ {
        LBKeyword::Class
    } else if value == "of"@ {
        LBKeyword::Of
    } else if value == "Self"@ {
        LBKeyword::SelfRT
    } else if value == "if"@ {
        LBKeyword::If
    } else if value == "elif"@ {
        LBKeyword::ElseIf
    } else if value == "else"@ {
        LBKeyword::Else
    } else {
        LBKeyword::Null
    }
}

pub fn is_keyword(value: &str) -> (r: bool)
    ensures
        r == (spec_keyword_value(value@) != LBKeyword::Null),
{
    keyword_value(value) != LBKeyword::Null
}

pub fn keyword_value(value: &str) -> (r: LBKeyword)
    ensures
        r == spec_keyword_value(value@),
{
    if str_eq(value, "using") {
        LBKeyword::Using
    } else if str_eq(value, "return") {
        LBKeyword::Return
    } else if str_eq(value, "returns") {
        LBKeyword::Returns
    } else if str_eq(value, "func") {
        LBKeyword::Func
    } else if str_eq(value, "for") {
        LBKeyword::For
    } else if str_eq(value, "while") {
        LBKeyword::While
    } else if str_eq(value, "global") {
        LBKeyword::Global
    } else if str_eq(value, "Extension") {
        LBKeyword::Extension
    } else if str_eq(value, "extension") {
        LBKeyword::Extension
    } else if str_eq(value, "Class") {
        LBKeyword::Class
    } else if str_eq(value, "of") {
        LBKeyword::Of
    } else if str_eq(value, "Self") {
        LBKeyword::SelfRT
    } else if str_eq(value, "if") {
        LBKeyword::If
    } else if str_eq(value, "elif") {
        LBKeyword::ElseIf
    } else if str_eq(value, "else") {
        LBKeyword::Else
    } else {
        LBKeyword::Null
    }
}

/// The name under which a keyword is printed.
pub open spec fn spec_keyword_name(k: LBKeyword) -> Seq<char> {
    match k {
        LBKeyword::Using => "using"@,
        LBKeyword::Return => "return"@,
        LBKeyword::Returns => "returns"@,
        LBKeyword::Func => "func"@,
        LBKeyword::For => "for"@,
        LBKeyword::While => "while"@,
        LBKeyword::Global => "global"@,
        LBKeyword::Extension => "extension"@,
        LBKeyword::NoneKw => "none"@,
        LBKeyword::Of => "of"@,
        LBKeyword::If => "if"@,
        LBKeyword::ElseIf => "elseif"@,
        LBKeyword::Else => "else"@,
        LBKeyword::SelfRT => "selfrt"@,
        LBKeyword::Class => "class"@,
        LBKeyword::Null => "null"@,
    }
}

impl LBKeyword {
    /// The printed form of the keyword.
    pub fn to_string(&self) -> (r: String)
        ensures
            r@ == spec_keyword_name(*self),
    {
        let s = match self {
            LBKeyword::Using => "using",
            LBKeyword::Return => "return",
            LBKeyword::Returns => "returns",
            LBKeyword::Func => "func",
            LBKeyword::For => "for",
            LBKeyword::While => "while",
            LBKeyword::Global => "global",
            LBKeyword::Extension => "extension",
            LBKeyword::NoneKw => "none",
            LBKeyword::Of => "of",
            LBKeyword::If => "if",
            LBKeyword::ElseIf => "elseif",
            LBKeyword::Else => "else",
            LBKeyword::SelfRT => "selfrt",
            LBKeyword::Class => "class",
            LBKeyword::Null => "null",
        };
        String::from_str(s)
    }
}

/// The keywords read back from their printed forms: `keyword_value` of what `to_string`
/// prints is the keyword itself, except for `none`, `elseif`, `selfrt` and `class`, which
/// spell no keyword (`Null` prints as "null", which spells none either).
pub proof fn printed_keywords_read_back(k: LBKeyword)
    ensures
        k != LBKeyword::NoneKw && k != LBKeyword::ElseIf && k != LBKeyword::SelfRT && k != LBKeyword::Class
            ==> spec_keyword_value(spec_keyword_name(k)) == k,
        k == LBKeyword::NoneKw || k == LBKeyword::ElseIf || k == LBKeyword::SelfRT || k == LBKeyword::Class
            ==> spec_keyword_value(spec_keyword_name(k)) == LBKeyword::Null,
{
    reveal_strlit("using");
    assert("using"@.len() == 5);
    assert("using"@[0] == 'u');
    assert("using"@[1] == 's');
    assert("using"@[2] == 'i');
    assert("using"@[3] == 'n');
    assert("using"@[4] == 'g');
    reveal_strlit("return");
    assert("return"@.len() == 6);
    assert("return"@[0] == 'r');
    assert("return"@[1] == 'e');
    assert("return"@[2] == 't');
    assert("return"@[3] == 'u');
    assert("return"@[4] == 'r');
    assert("return"@[5] == 'n');
    reveal_strlit("returns");
    assert("returns"@.len() == 7);
    assert("returns"@[0] == 'r');
    assert("returns"@[1] == 'e');
    assert("returns"@[2] == 't');
    assert("returns"@[3] == 'u');
    assert("returns"@[4] == 'r');
    assert("returns"@[5] == 'n');
    assert("returns"@[6] == 's');
    reveal_strlit("func");
    assert("func"@.len() == 4);
    assert("func"@[0] == 'f');
    assert("func"@[1] == 'u');
    assert("func"@[2] == 'n');
    assert("func"@[3] == 'c');
    reveal_strlit("for");
    assert("for"@.len() == 3);
    assert("for"@[0] == 'f');
    assert("for"@[1] == 'o');
    assert("for"@[2] == 'r');
    reveal_strlit("while");
    assert("while"@.len() == 5);
    assert("while"@[0] == 'w');
    assert("while"@[1] == 'h');
    assert("while"@[2] == 'i');
    assert("while"@[3] == 'l');
    assert("while"@[4] == 'e');
    reveal_strlit("global");
    assert("global"@.len() == 6);
    assert("global"@[0] == 'g');
    assert("global"@[1] == 'l');
    assert("global"@[2] == 'o');
    assert("global"@[3] == 'b');
    assert("global"@[4] == 'a');
    assert("global"@[5] == 'l');
    reveal_strlit("Extension");
    assert("Extension"@.len() == 9);
    assert("Extension"@[0] == 'E');
    assert("Extension"@[1] == 'x');
    assert("Extension"@[2] == 't');
    assert("Extension"@[3] == 'e');
    assert("Extension"@[4] == 'n');
    assert("Extension"@[5] == 's');
    assert("Extension"@[6] == 'i');
    assert("Extension"@[7] == 'o');
    assert("Extension"@[8] == 'n');
    reveal_strlit("extension");
    assert("extension"@.len() == 9);
    assert("extension"@[0] == 'e');
    assert("extension"@[1] == 'x');
    assert("extension"@[2] == 't');
    assert("extension"@[3] == 'e');
    assert("extension"@[4] == 'n');
    assert("extension"@[5] == 's');
    assert("extension"@[6] == 'i');
    assert("extension"@[7] == 'o');
    assert("extension"@[8] == 'n');
    reveal_strlit("Class");
    assert("Class"@.len() == 5);
    assert("Class"@[0] == 'C');
    assert("Class"@[1] == 'l');
    assert("Class"@[2] == 'a');
    assert("Class"@[3] == 's');
    assert("Class"@[4] == 's');
    reveal_strlit("of");
    assert("of"@.len() == 2);
    assert("of"@[0] == 'o');
    assert("of"@[1] == 'f');
    reveal_strlit("Self");
    assert("Self"@.len() == 4);
    assert("Self"@[0] == 'S');
    assert("Self"@[1] == 'e');
    assert("Self"@[2] == 'l');
    assert("Self"@[3] == 'f');
    reveal_strlit("if");
    assert("if"@.len() == 2);
    assert("if"@[0] == 'i');
    assert("if"@[1] == 'f');
    reveal_strlit("elif");
    assert("elif"@.len() == 4);
    assert("elif"@[0] == 'e');
    assert("elif"@[1] == 'l');
    assert("elif"@[2] == 'i');
    assert("elif"@[3] == 'f');
    reveal_strlit("else");
    assert("else"@.len() == 4);
    assert("else"@[0] == 'e');
    assert("else"@[1] == 'l');
    assert("else"@[2] == 's');
    assert("else"@[3] == 'e');
    reveal_strlit("none");
    assert("none"@.len() == 4);
    assert("none"@[0] == 'n');
    assert("none"@[1] == 'o');
    assert("none"@[2] == 'n');
    assert("none"@[3] == 'e');
    reveal_strlit("elseif");
    assert("elseif"@.len() == 6);
    assert("elseif"@[0] == 'e');
    assert("elseif"@[1] == 'l');
    assert("elseif"@[2] == 's');
    assert("elseif"@[3] == 'e');
    assert("elseif"@[4] == 'i');
    assert("elseif"@[5] == 'f');
    reveal_strlit("selfrt");
    assert("selfrt"@.len() == 6);
    assert("selfrt"@[0] == 's');
    assert("selfrt"@[1] == 'e');
    assert("selfrt"@[2] == 'l');
    assert("selfrt"@[3] == 'f');
    assert("selfrt"@[4] == 'r');
    assert("selfrt"@[5] == 't');
    reveal_strlit("class");
    assert("class"@.len() == 5);
    assert("class"@[0] == 'c');
    assert("class"@[1] == 'l');
    assert("class"@[2] == 'a');
    assert("class"@[3] == 's');
    assert("class"@[4] == 's');
    reveal_strlit("null");
    assert("null"@.len() == 4);
    assert("null"@[0] == 'n');
    assert("null"@[1] == 'u');
    assert("null"@[2] == 'l');
    assert("null"@[3] == 'l');
}

} // verus!
