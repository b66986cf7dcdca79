//! Source symbols: one character of the source together with what the lexer
//! knows about its surroundings.
use vstd::prelude::*;
use crate::text::{unicode_whitespace, unicode_alphabetic, spec_is_ascii_digit, spec_is_ascii_punctuation, char_is_whitespace, char_is_alphabetic, is_ascii_digit, is_ascii_punctuation, char_to_string};

verus! {

/// A character of source text with its neighbourhood flags and its position.
/// Two symbols are equal when they hold the same character.
#[derive(Clone, Copy, Debug, Hash)]
pub struct Symbol {
    pub character: char,
    pub pre_whitespace: bool,
    pub post_whitespace: bool,
    pub is_start_quote: bool,
    pub is_end_quote: bool,
    pub symbol_type: SymbolType,
    pub symbol_number: u32,
    pub line_number: u32,
}

/// The character class of a symbol.
#[derive(Clone, Copy, Debug, PartialEq, Eq, Structural, Hash)]
pub enum SymbolType {
    Alphabetic,
    Digit,
    Whitespace,
    ControlCharacter,
    Unknown,
}

/// The class of a character: whitespace first, then ASCII digits, then alphabetic
/// characters, then ASCII punctuation; everything else is unknown.
pub open spec fn spec_symbol_type_of(c: char) -> SymbolType {
    if unicode_whitespace(c) {
        SymbolType::Whitespace
    } else if spec_is_ascii_digit(c) {
        SymbolType::Digit
    } else if unicode_alphabetic(c) {
        SymbolType::Alphabetic
    } else if spec_is_ascii_punctuation(c) {
        SymbolType::ControlCharacter
    } else {
        SymbolType::Unknown
    }
}

impl SymbolType {
    pub fn of(character: char) -> (r: SymbolType)
        ensures
            r == spec_symbol_type_of(character),
    {
        if char_is_whitespace(character) {
            SymbolType::Whitespace
        } else if is_ascii_digit(character) {
            SymbolType::Digit
        } else if char_is_alphabetic(character) {
            SymbolType::Alphabetic
        } else if is_ascii_punctuation(character) {
            SymbolType::ControlCharacter
        } else {
            SymbolType::Unknown
        }
    }
}

impl Symbol {
    /// The character this symbol stands for.
    pub open spec fn ch(self) -> char {
        self.character
    }

    /// The position of the symbol on its line.
    pub open spec fn spec_symbol_number(self) -> u32 {
        self.symbol_number
    }

    /// The line the symbol stands on.
    pub open spec fn spec_line_number(self) -> u32 {
        self.line_number
    }

    pub fn new(
        character: char,
        pre_whitespace: bool,
        post_whitespace: bool,
        is_start_quote: bool,
        is_end_quote: bool,
        symbol_type: SymbolType,
        symbol_number: u32,
        line_number: u32,
    ) -> (r: Symbol)
        ensures
            r.ch() == character,
            r.pre_whitespace == pre_whitespace,
            r.post_whitespace == post_whitespace,
            r.is_start_quote == is_start_quote,
            r.is_end_quote == is_end_quote,
            r.symbol_type == symbol_type,
            r.spec_symbol_number() == symbol_number,
            r.spec_line_number() == line_number,
    {
        Symbol {
            character,
            pre_whitespace,
            post_whitespace,
            is_start_quote,
            is_end_quote,
            symbol_type,
            symbol_number,
            line_number,
        }
    }

    pub fn get_type(&self) -> (r: &SymbolType)
        ensures
            *r == self.symbol_type,
    {
        &self.symbol_type
    }

    pub fn line_number(&self) -> (r: u32)
        ensures
            r == self.spec_line_number(),
    {
        self.line_number
    }

    pub fn symbol_number(&self) -> (r: u32)
        ensures
            r == self.spec_symbol_number(),
    {
        self.symbol_number
    }

    pub fn char(&self) -> (r: &char)
        ensures
            *r == self.ch(),
    {
        &self.character
    }

    /// The symbol that stands for "no symbol": the NUL character at position zero,
    /// with every flag off and an unknown class.
    pub open spec fn spec_empty() -> Symbol {
        Symbol {
            character: '\0',
            pre_whitespace: false,
            post_whitespace: false,
            is_start_quote: false,
            is_end_quote: false,
            symbol_type: SymbolType::Unknown,
            symbol_number: 0,
            line_number: 0,
        }
    }

    pub fn empty() -> (r: Symbol)
        ensures
            r == Symbol::spec_empty(),
    {
        Symbol {
            character: '\0',
            pre_whitespace: false,
            post_whitespace: false,
            is_start_quote: false,
            is_end_quote: false,
            symbol_type: SymbolType::Unknown,
            symbol_number: 0,
            line_number: 0,
        }
    }

    pub fn as_string(&self) -> (r: String)
        ensures
            r@ == seq![self.ch()],
    {
        char_to_string(self.character)
    }
}

impl PartialEq for Symbol {
    fn eq(&self, other: &Self) -> (r: bool) {
        self.character == other.character
    }
}

impl vstd::std_specs::cmp::PartialEqSpecImpl for Symbol {
    open spec fn obeys_eq_spec() -> bool {
        true
    }

    open spec fn eq_spec(&self, other: &Self) -> bool {
        self.ch() == other.ch()
    }
}

impl Eq for Symbol {

}

} // verus!
