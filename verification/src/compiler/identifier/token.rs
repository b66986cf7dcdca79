//! Tokens: runs of source symbols that the lexer groups together.
use vstd::prelude::*;
use crate::compiler::symbols::{Symbol, SymbolType, spec_symbol_type_of};
use crate::text::string_push;

verus! {

/// The symbol that `Token::from_string` makes of a character: no flags, no position,
/// the character's own class.
pub open spec fn bare_symbol(c: char) -> Symbol {
    Symbol {
        character: c,
        pre_whitespace: false,
        post_whitespace: false,
        is_start_quote: false,
        is_end_quote: false,
        symbol_type: spec_symbol_type_of(c),
        symbol_number: 0,
        line_number: 0,
    }
}

/// The characters of a run of symbols.
pub open spec fn chars_of(symbols: Seq<Symbol>) -> Seq<char> {
    symbols.map_values(|s: Symbol| s.ch())
}

/// A run of symbols and the line it was last extended on.
#[derive(Debug, Hash)]
pub struct Token {
    symbols: Vec<Symbol>,
    line_number: u32,
}

/// Copies a run of symbols one by one.
fn copy_symbols(v: &Vec<Symbol>) -> (r: Vec<Symbol>)
    ensures
        r@ == v@,
{
    let mut r: Vec<Symbol> = Vec::new();
    let mut i: usize = 0;
    while i < v.len()
        invariant
            i <= v.len(),
            r@ == v@.subrange(0, i as int),
        decreases v.len() - i,
    {
        r.push(v[i]);
        i = i + 1;
    }
    assert(r@ =~= v@);
    r
}

impl Token {
    /// The symbols of the token, in order.
    pub closed spec fn spec_symbols(self) -> Seq<Symbol> {
        self.symbols@
    }

    /// The line number the token carries.
    pub closed spec fn spec_line_number(self) -> u32 {
        self.line_number
    }

    /// The text of the token.
    pub open spec fn spec_string(self) -> Seq<char> {
        chars_of(self.spec_symbols())
    }

    /// The length of the token: the number of its symbols, except that a token made of
    /// the single NUL symbol counts as empty.
    pub open spec fn spec_len(self) -> nat {
        let n = self.spec_symbols().len();
        if n == 1 && self.spec_symbols()[0].ch() == '\0' {
            0
        } else {
            n
        }
    }

    /// The first symbol, or the empty symbol for an empty token.
    pub open spec fn spec_first_or_empty(self) -> Symbol {
        if self.spec_symbols().len() == 0 {
            Symbol::spec_empty()
        } else {
            self.spec_symbols()[0]
        }
    }

    /// The last symbol, or the empty symbol for an empty token.
    pub open spec fn spec_last_or_empty(self) -> Symbol {
        if self.spec_symbols().len() == 0 {
            Symbol::spec_empty()
        } else {
            self.spec_symbols().last()
        }
    }

    pub fn empty() -> (r: Token)
        ensures
            r.spec_symbols() == Seq::<Symbol>::empty(),
            r.spec_line_number() == 0,
    {
        Token { symbols: Vec::new(), line_number: 0 }
    }

    /// One bare symbol per character of `string`, on line zero.
    pub fn from_string(string: String) -> (r: Token)
        ensures
            r.spec_symbols() == string@.map_values(|c: char| bare_symbol(c)),
            r.spec_string() == string@,
            r.spec_line_number() == 0,
    {
        let s = string.as_str();
        let n = s.unicode_len();
        let mut symbols: Vec<Symbol> = Vec::new();
        let mut i: usize = 0;
        while i < n
            invariant
                n == s@.len(),
                s@ == string@,
                i <= n,
                symbols@ == s@.subrange(0, i as int).map_values(|c: char| bare_symbol(c)),
            decreases n - i,
        {
            let c = s.get_char(i);
            let sym = Symbol::new(c, false, false, false, false, SymbolType::of(c), 0, 0);
            symbols.push(sym);
            assert(s@.subrange(0, i + 1) =~= s@.subrange(0, i as int).push(c));
            i = i + 1;
        }
        assert(s@.subrange(0, n as int) =~= s@);
        assert(chars_of(symbols@) =~= string@);
        Token::new(symbols, 0)
    }

    /// A token of the one symbol, on that symbol's line.
    pub fn from(symbol: Symbol) -> (r: Token)
        ensures
            r.spec_symbols() == seq![symbol],
            r.spec_line_number() == symbol.spec_line_number(),
    {
        let mut symbols = Vec::new();
        let line_number = symbol.line_number();
        symbols.push(symbol);
        Token { symbols, line_number }
    }

    pub fn new(symbols: Vec<Symbol>, line_number: u32) -> (r: Token)
        ensures
            r.spec_symbols() == symbols@,
            r.spec_line_number() == line_number,
    {
        Token { symbols, line_number }
    }

    /// Appends a symbol; the token moves to that symbol's line.
    pub fn add_symbol(&mut self, symbol: Symbol)
        ensures
            final(self).spec_symbols() == old(self).spec_symbols().push(symbol),
            final(self).spec_line_number() == symbol.spec_line_number(),
    {
        self.line_number = symbol.line_number();
        self.symbols.push(symbol);
    }

    pub fn insert_symbol(&mut self, index: usize, symbol: Symbol)
        requires
            index <= old(self).spec_symbols().len(),
        ensures
            final(self).spec_symbols() == old(self).spec_symbols().insert(index as int, symbol),
            final(self).spec_line_number() == old(self).spec_line_number(),
    {
        self.symbols.insert(index, symbol);
    }

    pub fn len(&self) -> (r: usize)
        ensures
            r == self.spec_len(),
    {
        let size = self.symbols.len();
        if size == 0 || size > 1 {
            return size;
        }
        if *self.symbol(0).char() == '\0' {
            return 0;
        }
        size
    }

    pub fn copy(&self) -> (r: Token)
        ensures
            r.spec_symbols() == self.spec_symbols(),
            r.spec_line_number() == self.spec_line_number(),
    {
        Token { symbols: copy_symbols(&self.symbols), line_number: self.line_number }
    }

    /// The symbol at `index`, which must be within the token (indexing past its end is a
    /// fatal error).
    pub fn symbol(&self, index: usize) -> (r: Symbol)
        requires
            index < self.spec_symbols().len(),
        ensures
            r == self.spec_symbols()[index as int],
    {
        self.symbols[index]
    }

    pub fn first_symbol_or_empty(&self) -> (r: Symbol)
        ensures
            r == self.spec_first_or_empty(),
    {
        let length = self.symbols.len();
        if length == 0 {
            return Symbol::empty();
        }
        self.symbol(0)
    }

    pub fn last_symbol_or_empty(&self) -> (r: Symbol)
        ensures
            r == self.spec_last_or_empty(),
    {
        let length = self.symbols.len();
        if length == 0 {
            return Symbol::empty();
        }
        self.symbol(length - 1)
    }

    /// The characters of the symbols, in order.
    pub fn as_string(&self) -> (r: String)
        ensures
            r@ == self.spec_string(),
    {
        let mut string = String::new();
        let mut i: usize = 0;
        while i < self.symbols.len()
            invariant
                i <= self.symbols@.len(),
                string@ == chars_of(self.symbols@.subrange(0, i as int)),
            decreases self.symbols@.len() - i,
        {
            let c = *self.symbols[i].char();
            string_push(&mut string, c);
            assert(chars_of(self.symbols@.subrange(0, i + 1)) =~= chars_of(
                self.symbols@.subrange(0, i as int),
            ).push(c));
            i = i + 1;
        }
        assert(self.symbols@.subrange(0, self.symbols@.len() as int) =~= self.symbols@);
        string
    }

    pub fn symbols(&self) -> (r: &Vec<Symbol>)
        ensures
            r@ == self.spec_symbols(),
    {
        &self.symbols
    }

    pub fn line_number(&self) -> (r: u32)
        ensures
            r == self.spec_line_number(),
    {
        self.line_number
    }

    pub fn set_line_number(&mut self, line_number: u32)
        ensures
            final(self).spec_symbols() == old(self).spec_symbols(),
            final(self).spec_line_number() == line_number,
    {
        self.line_number = line_number;
    }
}

} // verus!
