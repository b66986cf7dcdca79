//! The lexer's decisions: how source symbols are marked as they are read, and how a
//! stream of symbols is cut into tokens.
use vstd::prelude::*;
use crate::compiler::identifier::token::Token;
use crate::compiler::identifier::token_typer::{
    SourceToken, source_token, source_tokens, token_text, token_first, is_boundary_symbol, TokenTyper,
    type_tokens, try_type_tokens, type_run, typer_start, bases, read_order,
};
use crate::compiler::identifier::token_identifier::all_typed;
use crate::compiler::identifier::typed_token::tokens_view;
use crate::native_types::NativeTypes;
use vstd::utf8::encode_utf8;
use crate::compiler::lang::leblanc_lang::{BoundaryType, boundary_value, is_special, spec_special_value, Specials};
use crate::compiler::lang::leblanc_operators::{is_operator, spec_operator_type, LBOperator};
use crate::compiler::symbols::{Symbol, SymbolType, spec_symbol_type_of};
use crate::rustblanc::{ErrorStub, ErrorStubModel, errors_view};
use crate::text::{char_is_whitespace, seq_starts_with, seq_ends_with, str_starts_with, str_ends_with, unicode_whitespace, string_push};

verus! {

/// Where the quotation being read was opened or last closed: its quote character
/// (`'\0'` for none), and the symbol and line numbers.
#[derive(Clone, Copy, Debug)]
pub struct CharMarker {
    pub ch: char,
    pub symbol_number: u32,
    pub line_number: u32,
}

impl CharMarker {
    pub fn new(ch: char, symbol_number: u32, line_number: u32) -> (r: CharMarker)
        ensures
            r == (CharMarker { ch, symbol_number, line_number }),
    {
        CharMarker { ch, symbol_number, line_number }
    }
}

/// A quote character opens a quotation when none is open.
pub open spec fn spec_check_start_quote(ch: char, quote_marker: char) -> bool {
    (ch == '"' || ch == '\'') && quote_marker == '\0' && quote_marker != ch
}

/// A quote character closes the quotation it opened.
pub open spec fn spec_check_end_quote(ch: char, quote_marker: char) -> bool {
    (ch == '"' || ch == '\'') && quote_marker == ch
}

pub fn check_start_quote(ch: char, quote_marker: char) -> (r: bool)
    ensures
        r == spec_check_start_quote(ch, quote_marker),
{
    match ch {
        '"' => quote_marker == '\0' && quote_marker != ch,
        '\'' => quote_marker == '\0' && quote_marker != ch,
        _ => false,
    }
}

pub fn check_end_quote(ch: char, quote_marker: char) -> (r: bool)
    ensures
        r == spec_check_end_quote(ch, quote_marker),
{
    match ch {
        '"' => quote_marker == ch,
        '\'' => quote_marker == ch,
        _ => false,
    }
}

/// A comment, which never becomes a token.
pub open spec fn is_comment(t: SourceToken) -> bool {
    seq_starts_with(token_text(t), "//"@) || seq_starts_with(token_text(t), "/*"@)
}

/// The length a token counts with: a token of the single NUL symbol counts as empty.
pub open spec fn source_len(t: SourceToken) -> nat {
    if t.0.len() == 1 && t.0[0].ch() == '\0' {
        0
    } else {
        t.0.len()
    }
}

/// The tokens after `t` is offered: comments and empty tokens are left out.
pub open spec fn spec_add_token(tokens: Seq<SourceToken>, t: SourceToken) -> Seq<SourceToken> {
    if !is_comment(t) && source_len(t) > 0 {
        tokens.push(t)
    } else {
        tokens
    }
}

/// Adds a token unless it is a comment or empty.
pub fn add_token(tokens: &mut Vec<Token>, token: Token)
    ensures
        tokens_model(final(tokens)@) == spec_add_token(tokens_model(old(tokens)@), source_token(token)),
{
    let text = token.as_string();
    if !(str_starts_with(text.as_str(), "//") || str_starts_with(text.as_str(), "/*")) {
        if token.len() > 0 {
            let ghost before = tokens_model(tokens@);
            tokens.push(token);
            assert(tokens_model(tokens@) =~= before.push(source_token(token)));
        }
    }
}

/// The values of a list of tokens.
pub open spec fn tokens_model(v: Seq<Token>) -> Seq<SourceToken> {
    v.map_values(|t: Token| source_token(t))
}

/// The quote marker after reading `c` at the given position.
pub open spec fn marker_after(m: CharMarker, c: char, symbol_number: u32, line_number: u32) -> CharMarker {
    if spec_check_start_quote(c, m.ch) {
        CharMarker { ch: c, symbol_number, line_number }
    } else if spec_check_end_quote(c, m.ch) {
        CharMarker { ch: '\0', symbol_number, line_number }
    } else {
        m
    }
}

/// The symbol made of `c` read after `last`, followed by `c_future`, at the given
/// position, with the quotation state `m` before it.
pub open spec fn symbol_read(m: CharMarker, c: char, c_future: char, last: Symbol, symbol_number: u32, line_number: u32) -> Symbol {
    let start = spec_check_start_quote(c, m.ch);
    Symbol {
        character: c,
        pre_whitespace: unicode_whitespace(c_future),
        post_whitespace: last.symbol_type == SymbolType::Whitespace,
        is_start_quote: start,
        is_end_quote: !start && spec_check_end_quote(c, m.ch),
        symbol_type: spec_symbol_type_of(c),
        symbol_number,
        line_number,
    }
}

/// The first symbol of a source: marked as `get_next_symbol` marks any other, but with
/// no symbol before it, no quotation closed by it, and the quotation state `m` left as it is.
pub open spec fn first_symbol_read(m: char, c: char, c_future: char, symbol_number: u32, line_number: u32) -> Symbol {
    Symbol {
        character: c,
        pre_whitespace: unicode_whitespace(c_future),
        post_whitespace: false,
        is_start_quote: spec_check_start_quote(c, m),
        is_end_quote: false,
        symbol_type: spec_symbol_type_of(c),
        symbol_number,
        line_number,
    }
}

/// The state of the lexer: the tokens cut so far, the token being read and the
/// quotation being read.
pub struct Tokenizer {
    pub tokens: Vec<Token>,
    pub token: Token,
    pub quote_marker: CharMarker,
}

/// The lexer state as a value.
pub struct TokenizerModel {
    pub tokens: Seq<SourceToken>,
    pub token: SourceToken,
    pub quote_marker: CharMarker,
}

/// A token of one symbol.
pub open spec fn single(s: Symbol) -> SourceToken {
    (seq![s], s.spec_line_number())
}

/// A token with a symbol added.
pub open spec fn extended(t: SourceToken, s: Symbol) -> SourceToken {
    (t.0.push(s), s.spec_line_number())
}

/// The last symbol of a token, or the empty symbol.
pub open spec fn token_last(t: SourceToken) -> Symbol {
    if t.0.len() == 0 {
        Symbol::spec_empty()
    } else {
        t.0.last()
    }
}

/// What the lexer does with the symbol `current`, which `next` follows: the new state,
/// and whether `next` was taken into a token too.
pub open spec fn lex_step(st: TokenizerModel, current: Symbol, next: Symbol) -> (TokenizerModel, bool) {
    let t = st.token;
    let pair = seq![current.ch(), next.ch()];
    let empty: SourceToken = (Seq::empty(), 0);
    if !token_last(t).is_end_quote && token_first(t).is_start_quote {
        (TokenizerModel { token: extended(t, current), ..st }, false)
    } else if token_last(t).is_end_quote {
        (TokenizerModel { tokens: spec_add_token(st.tokens, t), token: single(current), ..st }, false)
    } else if seq_starts_with(token_text(t), "//"@) {
        let t2 = extended(t, current);
        if next.ch() == '\n' {
            (TokenizerModel { tokens: spec_add_token(st.tokens, t2), token: empty, ..st }, false)
        } else {
            (TokenizerModel { token: t2, ..st }, false)
        }
    } else if seq_starts_with(token_text(t), "/*"@) {
        let t2 = extended(t, current);
        if seq_ends_with(token_text(t2), "*/"@) {
            (TokenizerModel { tokens: spec_add_token(st.tokens, t2), token: empty, ..st }, false)
        } else {
            (TokenizerModel { token: t2, ..st }, false)
        }
    } else if spec_operator_type(pair) != LBOperator::NULL {
        (TokenizerModel { tokens: spec_add_token(st.tokens, t), token: single(current), ..st }, false)
    } else if spec_special_value(pair) != Specials::DNE {
        let tokens = spec_add_token(st.tokens, t);
        let t2 = extended(single(current), next);
        if !is_comment(t2) {
            (TokenizerModel { tokens: spec_add_token(tokens, t2), token: empty, ..st }, true)
        } else {
            (TokenizerModel { tokens, token: t2, ..st }, true)
        }
    } else if is_boundary_symbol(current) || spec_operator_type(seq![current.ch()]) != LBOperator::NULL {
        if spec_operator_type(seq![current.ch()]) != LBOperator::NULL && spec_operator_type(
            token_text(t),
        ) != LBOperator::NULL {
            (TokenizerModel { tokens: spec_add_token(st.tokens, extended(t, current)), token: empty, ..st }, false)
        } else {
            (
                TokenizerModel {
                    tokens: spec_add_token(spec_add_token(st.tokens, t), single(current)),
                    token: empty,
                    ..st
                },
                false,
            )
        }
    } else if current.symbol_type == SymbolType::Whitespace {
        (TokenizerModel { tokens: spec_add_token(st.tokens, t), token: empty, ..st }, false)
    } else {
        (TokenizerModel { token: extended(t, current), ..st }, false)
    }
}


/// The two characters as a string.
fn pair_string(a: char, b: char) -> (r: String)
    ensures
        r@ == seq![a, b],
{
    let mut r = crate::text::char_to_string(a);
    string_push(&mut r, b);
    assert(r@ =~= seq![a, b]);
    r
}

/// Puts `with` in the slot and hands out what was there.
fn replace_token(slot: &mut Token, with: Token) -> (r: Token)
    ensures
        r == *old(slot),
        *final(slot) == with,
{
    let mut w = with;
    std::mem::swap(slot, &mut w);
    w
}

fn empty_token() -> (r: Token)
    ensures
        source_token(r) == (Seq::<Symbol>::empty(), 0u32),
{
    let t = Token::empty();
    assert(t.spec_symbols() =~= Seq::<Symbol>::empty());
    t
}

impl Tokenizer {
    pub open spec fn model(&self) -> TokenizerModel {
        TokenizerModel {
            tokens: tokens_model(self.tokens@),
            token: source_token(self.token),
            quote_marker: self.quote_marker,
        }
    }

    /// A lexer that has read nothing.
    pub fn new() -> (r: Tokenizer)
        ensures
            r.model() == (TokenizerModel {
                tokens: Seq::empty(),
                token: (Seq::empty(), 0),
                quote_marker: CharMarker { ch: '\0', symbol_number: 0, line_number: 0 },
            }),
    {
        let r = Tokenizer { tokens: Vec::new(), token: empty_token(), quote_marker: CharMarker::new('\0', 0, 0) };
        assert(tokens_model(r.tokens@) =~= Seq::<SourceToken>::empty());
        r
    }

    /// Marks the first character of a source as a symbol.
    pub fn first_symbol(&self, c: char, c_future: char, symbol_number: u32, line_number: u32) -> (r: Symbol)
        ensures
            r == first_symbol_read(self.quote_marker.ch, c, c_future, symbol_number, line_number),
    {
        Symbol::new(
            c,
            char_is_whitespace(c_future),
            false,
            check_start_quote(c, self.quote_marker.ch),
            false,
            SymbolType::of(c),
            symbol_number,
            line_number,
        )
    }

    /// Marks the character `c`, read after `last` at the given position and followed by
    /// `c_future`, and moves the quotation state past it.
    pub fn get_next_symbol(&mut self, c: char, c_future: char, last: Symbol, symbol_number: u32, line_number: u32) -> (r: Symbol)
        ensures
            r == symbol_read(old(self).quote_marker, c, c_future, last, symbol_number, line_number),
            final(self).quote_marker == marker_after(old(self).quote_marker, c, symbol_number, line_number),
            final(self).tokens == old(self).tokens,
            final(self).token == old(self).token,
    {
        let quote_start = check_start_quote(c, self.quote_marker.ch);
        let mut quote_end = false;
        if quote_start {
            self.quote_marker.ch = c;
            self.quote_marker.symbol_number = symbol_number;
            self.quote_marker.line_number = line_number;
        } else {
            quote_end = check_end_quote(c, self.quote_marker.ch);
            if quote_end {
                self.quote_marker.ch = '\0';
                self.quote_marker.symbol_number = symbol_number;
                self.quote_marker.line_number = line_number;
            }
        }
        Symbol::new(
            c,
            char_is_whitespace(c_future),
            *last.get_type() == SymbolType::Whitespace,
            quote_start,
            quote_end,
            SymbolType::of(c),
            symbol_number,
            line_number,
        )
    }

    /// Reads the symbol `current`, which `next` follows; returns whether `next` was taken
    /// into a token too, so that the reader must supply a fresh one.
    #[verifier::rlimit(30)]
    pub fn step(&mut self, current: Symbol, next: Symbol) -> (took_next: bool)
        ensures
            (final(self).model(), took_next) == lex_step(old(self).model(), current, next),
    {
        let ghost st = self.model();
        let text = self.token.as_string();
        let last = self.token.last_symbol_or_empty();
        let first = self.token.first_symbol_or_empty();
        let pair = pair_string(*current.char(), *next.char());
        let single = crate::text::char_to_string(*current.char());
        if !last.is_end_quote && first.is_start_quote {
            self.token.add_symbol(current);
            false
        } else if last.is_end_quote {
            let t = replace_token(&mut self.token, Token::from(current));
            add_token(&mut self.tokens, t);
            false
        } else if str_starts_with(text.as_str(), "//") {
            self.token.add_symbol(current);
            if *next.char() == '\n' {
                let t = replace_token(&mut self.token, empty_token());
                add_token(&mut self.tokens, t);
            }
            false
        } else if str_starts_with(text.as_str(), "/*") {
            self.token.add_symbol(current);
            let text2 = self.token.as_string();
            if str_ends_with(text2.as_str(), "*/") {
                let t = replace_token(&mut self.token, empty_token());
                add_token(&mut self.tokens, t);
            }
            false
        } else if is_operator(pair.as_str()) {
            let t = replace_token(&mut self.token, Token::from(current));
            add_token(&mut self.tokens, t);
            false
        } else if is_special(pair.as_str()) {
            let t = replace_token(&mut self.token, Token::from(current));
            add_token(&mut self.tokens, t);
            self.token.add_symbol(next);
            let text2 = self.token.as_string();
            if !(str_starts_with(text2.as_str(), "//") || str_starts_with(text2.as_str(), "/*")) {
                let t2 = replace_token(&mut self.token, empty_token());
                add_token(&mut self.tokens, t2);
            }
            true
        } else if boundary_value(current.char()) != BoundaryType::DNE || is_operator(single.as_str()) {
            if is_operator(single.as_str()) && is_operator(text.as_str()) {
                self.token.add_symbol(current);
                let t = replace_token(&mut self.token, empty_token());
                add_token(&mut self.tokens, t);
            } else {
                let t = replace_token(&mut self.token, Token::from(current));
                add_token(&mut self.tokens, t);
                let t2 = replace_token(&mut self.token, empty_token());
                add_token(&mut self.tokens, t2);
            }
            false
        } else if *current.get_type() == SymbolType::Whitespace {
            let t = replace_token(&mut self.token, empty_token());
            add_token(&mut self.tokens, t);
            false
        } else {
            self.token.add_symbol(current);
            false
        }
    }

    /// Ends the reading: an unclosed quotation is an error; the tokens come out last
    /// first, as the typing pass reads them. The token still being read is dropped.
    pub fn finish(self, errors: &mut Vec<ErrorStub>) -> (r: Vec<Token>)
        ensures
            tokens_model(r@) == tokens_model(self.tokens@).reverse(),
            errors_view(final(errors)@) == (if self.quote_marker.ch != '\0' {
                errors_view(old(errors)@).push(
                    ErrorStubModel::ParseImbalancedQuotation(
                        self.quote_marker.line_number,
                        self.quote_marker.symbol_number,
                    ),
                )
            } else {
                errors_view(old(errors)@)
            }),
    {
        if self.quote_marker.ch != '\0' {
            errors.push(ErrorStub::ParseImbalancedQuotation(self.quote_marker.line_number, self.quote_marker.symbol_number));
            assert(errors_view(errors@) =~= errors_view(old(errors)@).push(
                ErrorStubModel::ParseImbalancedQuotation(
                    self.quote_marker.line_number,
                    self.quote_marker.symbol_number,
                ),
            ));
        }
        let Tokenizer { tokens, .. } = self;
        let mut tokens = tokens;
        let ghost orig = tokens@;
        let mut out: Vec<Token> = Vec::new();
        while tokens.len() > 0
            invariant
                orig.len() == tokens@.len() + out@.len(),
                tokens@ == orig.subrange(0, tokens@.len() as int),
                tokens_model(out@) == tokens_model(orig).reverse().subrange(0, out@.len() as int),
            decreases tokens.len(),
        {
            let t = tokens.pop().unwrap();
            let ghost before = tokens_model(out@);
            out.push(t);
            assert(tokens_model(out@) =~= tokens_model(orig).reverse().subrange(0, out@.len() as int));
        }
        assert(tokens_model(out@) =~= tokens_model(orig).reverse());
        out
    }
}


/// One character as a reader hands it out: the character, the character after it, and
/// its position (its number on the line, and the line).
#[derive(Clone, Copy, Debug)]
pub struct CharRead {
    pub ch: char,
    pub next: char,
    pub symbol_number: u32,
    pub line_number: u32,
}

/// The `k`th read of a source; a read past the end gives the NUL character at position 0.
pub open spec fn read_at(reads: Seq<CharRead>, k: int) -> CharRead {
    if 0 <= k < reads.len() {
        reads[k]
    } else {
        CharRead { ch: '\0', next: '\0', symbol_number: 0, line_number: 0 }
    }
}

/// The symbol made of the read `r`, which follows `last`, and the lexer state with the
/// quotation moved past it.
pub open spec fn read_symbol(st: TokenizerModel, r: CharRead, last: Symbol) -> (TokenizerModel, Symbol) {
    (
        TokenizerModel { quote_marker: marker_after(st.quote_marker, r.ch, r.symbol_number, r.line_number), ..st },
        symbol_read(st.quote_marker, r.ch, r.next, last, r.symbol_number, r.line_number),
    )
}

/// The lexer state once the reads from the `k`th on are used up, `current` being the
/// symbol read last and not yet cut.
pub open spec fn lex_from(reads: Seq<CharRead>, st: TokenizerModel, current: Symbol, k: int) -> TokenizerModel
    decreases reads.len() + 1 - k,
{
    if k >= reads.len() {
        st
    } else {
        let (st1, next) = read_symbol(st, read_at(reads, k), current);
        let (st2, took) = lex_step(st1, current, next);
        if took {
            let (st3, next2) = read_symbol(st2, read_at(reads, k + 1), current);
            lex_from(reads, st3, next2, k + 2)
        } else {
            lex_from(reads, st2, next, k + 1)
        }
    }
}

/// The lexer state once all the reads of a source are used up.
pub open spec fn lexed(reads: Seq<CharRead>) -> TokenizerModel {
    let r0 = read_at(reads, 0);
    lex_from(
        reads,
        TokenizerModel {
            tokens: Seq::empty(),
            token: (Seq::empty(), 0),
            quote_marker: CharMarker { ch: '\0', symbol_number: 0, line_number: 0 },
        },
        first_symbol_read('\0', r0.ch, r0.next, r0.symbol_number, r0.line_number),
        1,
    )
}

/// The errors of lexing a source: an unclosed quotation, where it was opened.
pub open spec fn lex_errors(reads: Seq<CharRead>) -> Seq<ErrorStubModel> {
    let m = lexed(reads).quote_marker;
    if m.ch != '\0' {
        seq![ErrorStubModel::ParseImbalancedQuotation(m.line_number, m.symbol_number)]
    } else {
        Seq::empty()
    }
}

/// Every token cut from a source has a text whose UTF-8 form fits the machine's sizes.
pub open spec fn lexed_texts_fit(reads: Seq<CharRead>) -> bool {
    forall|i: int|
        0 <= i < lexed(reads).tokens.len() ==> encode_utf8(token_text(#[trigger] lexed(reads).tokens[i])).len()
            <= usize::MAX
}

fn read_or_end(reads: &Vec<CharRead>, k: usize) -> (r: CharRead)
    ensures
        r == read_at(reads@, k as int),
{
    if k < reads.len() {
        reads[k]
    } else {
        CharRead { ch: '\0', next: '\0', symbol_number: 0, line_number: 0 }
    }
}

/// Cuts a source into tokens, reading its characters as the reader hands them out until
/// the last: the tokens, stacked last first, and the lexing errors.
fn lex_reads(reads: &Vec<CharRead>) -> (r: (Vec<Token>, Vec<ErrorStub>))
    requires
        lexed_texts_fit(reads@),
    ensures
        source_tokens(r.0@).reverse() == lexed(reads@).tokens,
        errors_view(r.1@) == lex_errors(reads@),
        forall|i: int| 0 <= i < r.0@.len() ==> encode_utf8((#[trigger] r.0@[i]).spec_string()).len() <= usize::MAX,
        read_order(r.0@) == r.0@.reverse(),
        source_tokens(r.0@.reverse()) == lexed(reads@).tokens,
{
    let mut tz = Tokenizer::new();
    let r0 = read_or_end(reads, 0);
    let mut next = tz.first_symbol(r0.ch, r0.next, r0.symbol_number, r0.line_number);
    let mut k: usize = 1;
    while k < reads.len()
        invariant
            k >= 1,
            lex_from(reads@, tz.model(), next, k as int) == lexed(reads@),
        decreases reads.len() - k,
    {
        let current = next;
        let ghost st0 = tz.model();
        let ghost k0 = k as int;
        let r = read_or_end(reads, k);
        next = tz.get_next_symbol(r.ch, r.next, current, r.symbol_number, r.line_number);
        assert(tz.model() == read_symbol(st0, r, current).0);
        k = k + 1;
        let ghost st1 = tz.model();
        let ghost n1 = next;
        if tz.step(current, next) {
            let ghost st2 = tz.model();
            let r2 = read_or_end(reads, k);
            next = tz.get_next_symbol(r2.ch, r2.next, current, r2.symbol_number, r2.line_number);
            assert(tz.model() == read_symbol(st2, r2, current).0);
            if k < reads.len() {
                k = k + 1;
            } else {
                k = reads.len();
                assert(lex_from(reads@, tz.model(), next, k0 + 2) == tz.model());
                assert(lex_from(reads@, tz.model(), next, k as int) == tz.model());
            }
        }
    }
    let mut errors: Vec<ErrorStub> = Vec::new();
    let ghost model = tz.model();
    let tokens = tz.finish(&mut errors);
    proof {
        assert(model == lexed(reads@));
        assert(errors_view(errors@) =~= lex_errors(reads@));
        assert(source_tokens(tokens@).reverse() =~= lexed(reads@).tokens);
        assert forall|i: int| 0 <= i < tokens@.len() implies encode_utf8((#[trigger] tokens@[i]).spec_string()).len()
            <= usize::MAX by {
            let j = tokens@.len() - 1 - i;
            assert(source_token(tokens@[i]) == lexed(reads@).tokens[j]);
        }
    }
    let ghost tv = tokens@;
    proof {
        let lt = lexed(reads@).tokens;
        lexed_tokens_are_never_comments_or_empty(reads@);
        assert(source_tokens(tv) == lt.reverse());
        if tv.len() > 0 {
            assert(source_token(tv.reverse().last()) == lt[lt.len() - 1]) by {
                assert(tv.reverse().last() == tv[0]);
                assert(source_tokens(tv)[0] == lt.reverse()[0]);
            }
            assert(source_len(lt[lt.len() - 1]) > 0);
        }
        assert(read_order(tv) == tv.reverse());
        assert(source_tokens(tv.reverse()) =~= lt) by {
            assert forall|i: int| 0 <= i < lt.len() implies source_tokens(tv.reverse())[i] == lt[i] by {
                assert(tv.reverse()[i] == tv[tv.len() - 1 - i]);
                assert(source_tokens(tv)[tv.len() - 1 - i] == lt.reverse()[tv.len() - 1 - i]);
            }
        }
    }
    (tokens, errors)
}

/// Cuts a source into tokens, reading its characters as the reader hands them out until
/// the last, and types the tokens; the result carries the path of the file read. An
/// unclosed quotation is reported, at the place where it was opened, before the typing
/// pass reports anything, and the typing still runs.
pub fn create_tokens(reads: &Vec<CharRead>, path: String, natives: &NativeTypes) -> (r: TokenTyper)
    requires
        lexed(reads@).tokens.len() < i32::MAX - 2,
        lexed_texts_fit(reads@),
        type_run(typer_start(lex_errors(reads@)), lexed(reads@).tokens, natives@) is Some,
    ensures
        r.model() == type_run(typer_start(lex_errors(reads@)), lexed(reads@).tokens, natives@).unwrap(),
        r.type_map.wf(),
        all_typed(tokens_view(r.typed_tokens@)),
        r.spec_path() == path@,
        source_tokens(bases(r.typed_tokens@)) == lexed(reads@).tokens,
{
    let (tokens, errors) = lex_reads(reads);
    let ghost tv = tokens@;
    let mut typer = type_tokens(tokens, errors, natives);
    typer.path = path;
    typer
}

/// What `create_tokens` gives, where the typing pass can type the tokens cut (see
/// `try_type_tokens`); `None` where it cannot.
pub fn try_create_tokens(reads: &Vec<CharRead>, path: String, natives: &NativeTypes) -> (r: Option<TokenTyper>)
    requires
        lexed(reads@).tokens.len() < i32::MAX - 2,
        lexed_texts_fit(reads@),
    ensures
        r is Some <==> type_run(typer_start(lex_errors(reads@)), lexed(reads@).tokens, natives@) is Some,
        r matches Some(ty) ==> ty.model() == type_run(
            typer_start(lex_errors(reads@)),
            lexed(reads@).tokens,
            natives@,
        ).unwrap() && ty.type_map.wf() && all_typed(tokens_view(ty.typed_tokens@)) && ty.spec_path() == path@
            && source_tokens(bases(ty.typed_tokens@)) == lexed(reads@).tokens,
{
    let (tokens, errors) = lex_reads(reads);
    match try_type_tokens(tokens, errors, natives) {
        Some(typer) => {
            let mut typer = typer;
            typer.path = path;
            Some(typer)
        },
        None => None,
    }
}

/// No token cut is a comment or empty.
pub open spec fn tokens_cut_cleanly(tokens: Seq<SourceToken>) -> bool {
    forall|i: int| 0 <= i < tokens.len() ==> !is_comment(#[trigger] tokens[i]) && source_len(tokens[i]) > 0
}

proof fn lemma_add_token_clean(tokens: Seq<SourceToken>, t: SourceToken)
    requires
        tokens_cut_cleanly(tokens),
    ensures
        tokens_cut_cleanly(spec_add_token(tokens, t)),
{
    let r = spec_add_token(tokens, t);
    assert forall|i: int| 0 <= i < r.len() implies !is_comment(#[trigger] r[i]) && source_len(r[i]) > 0 by {
        if i < tokens.len() {
            assert(r[i] == tokens[i]);
        }
    }
}

/// The lexer never cuts a comment or an empty token: whatever it reads, the tokens it
/// has cut stay free of them.
pub proof fn lexing_never_cuts_comments_or_empty_tokens(st: TokenizerModel, current: Symbol, next: Symbol)
    requires
        tokens_cut_cleanly(st.tokens),
    ensures
        tokens_cut_cleanly(lex_step(st, current, next).0.tokens),
{
    let t = st.token;
    lemma_add_token_clean(st.tokens, t);
    lemma_add_token_clean(st.tokens, extended(t, current));
    lemma_add_token_clean(spec_add_token(st.tokens, t), single(current));
    lemma_add_token_clean(spec_add_token(st.tokens, t), extended(single(current), next));
}

proof fn lemma_lex_from_clean(reads: Seq<CharRead>, st: TokenizerModel, current: Symbol, k: int)
    requires
        tokens_cut_cleanly(st.tokens),
    ensures
        tokens_cut_cleanly(lex_from(reads, st, current, k).tokens),
    decreases reads.len() + 1 - k,
{
    if k < reads.len() {
        let (st1, next) = read_symbol(st, read_at(reads, k), current);
        lexing_never_cuts_comments_or_empty_tokens(st1, current, next);
        let (st2, took) = lex_step(st1, current, next);
        if took {
            let (st3, next2) = read_symbol(st2, read_at(reads, k + 1), current);
            lemma_lex_from_clean(reads, st3, next2, k + 2);
        } else {
            lemma_lex_from_clean(reads, st2, next, k + 1);
        }
    }
}

/// No token the lexer cuts from a source is a comment or empty, whatever the source.
pub proof fn lexed_tokens_are_never_comments_or_empty(reads: Seq<CharRead>)
    ensures
        tokens_cut_cleanly(lexed(reads).tokens),
{
    let r0 = read_at(reads, 0);
    lemma_lex_from_clean(
        reads,
        TokenizerModel {
            tokens: Seq::empty(),
            token: (Seq::empty(), 0),
            quote_marker: CharMarker { ch: '\0', symbol_number: 0, line_number: 0 },
        },
        first_symbol_read('\0', r0.ch, r0.next, r0.symbol_number, r0.line_number),
        1,
    );
}


/// A whitespace character read outside a quotation and outside a comment ends the token
/// being read: the token is cut (kept unless it is empty) and the next one starts empty.
/// So no token cut there holds a whitespace character, a tab no more than a space.
pub proof fn whitespace_ends_a_plain_token(st: TokenizerModel, current: Symbol, next: Symbol)
    requires
        unicode_whitespace(current.ch()),
        current.symbol_type == spec_symbol_type_of(current.ch()),
        !token_first(st.token).is_start_quote,
        !token_last(st.token).is_end_quote,
        !is_comment(st.token),
    ensures
        lex_step(st, current, next) == (
        TokenizerModel { tokens: spec_add_token(st.tokens, st.token), token: (Seq::<Symbol>::empty(), 0u32), ..st },
        false,
        ),
{
    crate::compiler::lang::leblanc_operators::operator_words_start_with_no_whitespace(
        seq![current.ch(), next.ch()],
    );
    crate::compiler::lang::leblanc_operators::operator_words_start_with_no_whitespace(seq![current.ch()]);
    crate::compiler::lang::leblanc_lang::special_words_start_with_no_whitespace(seq![current.ch(), next.ch()]);
}

} // verus!
