//! Tokens together with their role in the program, their scope and their typing.
use vstd::prelude::*;
use crate::compiler::identifier::token::Token;
use crate::compiler::symbols::Symbol;
use crate::compiler::lang::leblanc_lang::CompileVocab;
use crate::native_types::LeBlancType;
use crate::text::str_eq;

verus! {

/// What a typed token is, as a mathematical value: its text, its line, the symbols it
/// was read from, its role, scope, typing and globality.
pub struct TypedTokenModel {
    pub token: Seq<char>,
    pub line_number: u32,
    pub symbols: Seq<Symbol>,
    pub lang_type: CompileVocab,
    pub scope: i32,
    pub typing: Seq<Seq<LeBlancType>>,
    pub global: bool,
}

/// A token with its role, its scope number, its typing and whether it is global.
/// The typing holds the argument types at index 0 and the return types at index 1.
#[derive(Debug, Hash)]
pub struct TypedToken {
    base: Token,
    lang_type: CompileVocab,
    scope: i32,
    a_typing: Vec<Vec<LeBlancType>>,
    global: bool,
}

/// The name of a token together with its role, as the function matcher keys it.
#[derive(Debug)]
pub struct PartialToken {
    token: String,
    pub lang_type: CompileVocab,
}

/// The contents of a list of typed tokens.
pub open spec fn tokens_view(v: Seq<TypedToken>) -> Seq<TypedTokenModel> {
    v.map_values(|t: TypedToken| t@)
}

/// Copies a list of types one by one.
pub fn copy_types(v: &Vec<LeBlancType>) -> (r: Vec<LeBlancType>)
    ensures
        r@ == v@,
{
    let mut r: Vec<LeBlancType> = Vec::new();
    let mut i: usize = 0;
    while i < v.len()
        invariant
            i <= v.len(),
            r@ == v@.subrange(0, i as int),
        decreases v.len() - i,
    {
        r.push(v[i]);
        i = i + 1;
    }
    assert(r@ =~= v@);
    r
}

/// The contents of a nested list of types.
pub open spec fn nested_view(v: Seq<Vec<LeBlancType>>) -> Seq<Seq<LeBlancType>> {
    v.map_values(|t: Vec<LeBlancType>| t@)
}

/// Copies a nested list of types.
pub fn copy_typing(v: &Vec<Vec<LeBlancType>>) -> (r: Vec<Vec<LeBlancType>>)
    ensures
        nested_view(r@) == nested_view(v@),
{
    let mut r: Vec<Vec<LeBlancType>> = Vec::new();
    let mut i: usize = 0;
    while i < v.len()
        invariant
            i <= v.len(),
            nested_view(r@) == nested_view(v@.subrange(0, i as int)),
        decreases v.len() - i,
    {
        let inner = copy_types(&v[i]);
        r.push(inner);
        assert(nested_view(v@.subrange(0, i + 1)) =~= nested_view(v@.subrange(0, i as int)).push(
            v@[i as int]@,
        ));
        i = i + 1;
    }
    assert(v@.subrange(0, v@.len() as int) =~= v@);
    r
}

impl View for TypedToken {
    type V = TypedTokenModel;

    closed spec fn view(&self) -> TypedTokenModel {
        TypedTokenModel {
            token: self.base.spec_string(),
            line_number: self.base.spec_line_number(),
            symbols: self.base.spec_symbols(),
            lang_type: self.lang_type,
            scope: self.scope,
            typing: nested_view(self.a_typing@),
            global: self.global,
        }
    }
}

impl TypedToken {
    /// The underlying token.
    pub closed spec fn spec_base(self) -> Token {
        self.base
    }

    pub fn new(token: Token, vocab: CompileVocab, scope: i32, global: bool) -> (r: TypedToken)
        ensures
            r.spec_base() == token,
            r@.token == token.spec_string(),
            r@.line_number == token.spec_line_number(),
            r@.symbols == token.spec_symbols(),
            r@.lang_type == vocab,
            r@.scope == scope,
            r@.typing == seq![Seq::<LeBlancType>::empty(), Seq::<LeBlancType>::empty()],
            r@.global == global,
    {
        let mut a_typing: Vec<Vec<LeBlancType>> = Vec::new();
        a_typing.push(Vec::new());
        a_typing.push(Vec::new());
        let r = TypedToken { base: token, lang_type: vocab, scope, a_typing, global };
        assert(r@.typing =~= seq![Seq::<LeBlancType>::empty(), Seq::<LeBlancType>::empty()]);
        r
    }

    /// The token of no text, of unknown role, in scope -1.
    pub open spec fn is_empty_token(m: TypedTokenModel) -> bool {
        &&& m.token == Seq::<char>::empty()
        &&& m.symbols == Seq::<Symbol>::empty()
        &&& m.line_number == 0
        &&& m.lang_type == CompileVocab::UNKNOWN(LeBlancType::Class(0))
        &&& m.scope == -1
        &&& m.typing == seq![Seq::<LeBlancType>::empty(), Seq::<LeBlancType>::empty()]
        &&& !m.global
    }

    pub fn empty() -> (r: TypedToken)
        ensures
            TypedToken::is_empty_token(r@),
    {
        let r = TypedToken::new(Token::empty(), CompileVocab::UNKNOWN(LeBlancType::Class(0)), -1, false);
        assert(r@.token =~= Seq::<char>::empty());
        assert(r@.symbols =~= Seq::<Symbol>::empty());
        r
    }

    pub fn lang_type(&self) -> (r: CompileVocab)
        ensures
            r == self@.lang_type,
    {
        self.lang_type
    }

    pub fn scope(&self) -> (r: i32)
        ensures
            r == self@.scope,
    {
        self.scope
    }

    pub fn token(&self) -> (r: &Token)
        ensures
            *r == self.spec_base(),
            r.spec_string() == self@.token,
            r.spec_symbols() == self@.symbols,
            r.spec_line_number() == self@.line_number,
    {
        &self.base
    }

    pub fn typing(&self) -> (r: &Vec<Vec<LeBlancType>>)
        ensures
            nested_view(r@) == self@.typing,
    {
        &self.a_typing
    }

    /// The typing, open for changes.
    pub fn typing_mut(&mut self) -> (r: &mut Vec<Vec<LeBlancType>>)
        ensures
            nested_view(r@) == old(self)@.typing,
            final(self)@ == (TypedTokenModel { typing: nested_view(final(r)@), ..old(self)@ }),
    {
        &mut self.a_typing
    }

    pub fn global(&self) -> (r: bool)
        ensures
            r == self@.global,
    {
        self.global
    }

    pub fn as_string(&self) -> (r: String)
        ensures
            r@ == self@.token,
    {
        self.base.as_string()
    }

    pub fn set_type(&mut self, vocab: CompileVocab)
        ensures
            final(self)@ == (TypedTokenModel { lang_type: vocab, ..old(self)@ }),
    {
        self.lang_type = vocab;
    }

    pub fn set_scope(&mut self, scope: i32)
        ensures
            final(self)@ == (TypedTokenModel { scope: scope, ..old(self)@ }),
    {
        self.scope = scope;
    }

    /// Moves the given types to the end of the argument types; `typing` is left empty.
    pub fn set_typing_args(&mut self, typing: &mut Vec<LeBlancType>)
        requires
            old(self)@.typing.len() >= 1,
        ensures
            final(self)@ == (TypedTokenModel {
                typing: old(self)@.typing.update(0, old(self)@.typing[0] + old(typing)@),
                ..old(self)@
            }),
            final(typing)@ == Seq::<LeBlancType>::empty(),
    {
        let mut first = self.a_typing.remove(0);
        first.append(typing);
        self.a_typing.insert(0, first);
        assert(nested_view(self.a_typing@) =~= old(self)@.typing.update(
            0,
            old(self)@.typing[0] + old(typing)@,
        ));
    }

    /// Replaces the return types.
    pub fn set_typing_returns(&mut self, typing: Vec<LeBlancType>)
        requires
            old(self)@.typing.len() >= 2,
        ensures
            final(self)@ == (TypedTokenModel {
                typing: old(self)@.typing.update(1, typing@),
                ..old(self)@
            }),
    {
        self.a_typing.set(1, typing);
        assert(nested_view(self.a_typing@) =~= old(self)@.typing.update(1, typing@));
    }

    pub fn set_typing(&mut self, typing: Vec<Vec<LeBlancType>>)
        ensures
            final(self)@ == (TypedTokenModel { typing: nested_view(typing@), ..old(self)@ }),
    {
        self.a_typing = typing;
    }

    pub fn set_global(&mut self, global: bool)
        ensures
            final(self)@ == (TypedTokenModel { global: global, ..old(self)@ }),
    {
        self.global = global
    }

    pub fn as_partial(&self) -> (r: PartialToken)
        ensures
            r@ == (self@.token, self@.lang_type),
    {
        PartialToken::from(self)
    }
}

impl Clone for TypedToken {
    fn clone(&self) -> (r: Self)
        ensures
            r@ == self@,
    {
        TypedToken {
            base: self.base.copy(),
            lang_type: self.lang_type,
            scope: self.scope,
            a_typing: copy_typing(&self.a_typing),
            global: self.global,
        }
    }
}

impl View for PartialToken {
    type V = (Seq<char>, CompileVocab);

    closed spec fn view(&self) -> (Seq<char>, CompileVocab) {
        (self.token@, self.lang_type)
    }
}

/// Whether two roles print the same: equal roles, where a special marker's binding
/// priority is not printed.
pub open spec fn same_printed_vocab(a: CompileVocab, b: CompileVocab) -> bool {
    match (a, b) {
        (CompileVocab::SPECIAL(x, _), CompileVocab::SPECIAL(y, _)) => x == y,
        _ => a == b,
    }
}

/// Whether two partial tokens denote the same entry of the function matcher: the same
/// text, and either the same printed role or both functions.
pub open spec fn same_partial(a: (Seq<char>, CompileVocab), b: (Seq<char>, CompileVocab)) -> bool {
    &&& a.0 == b.0
    &&& (same_printed_vocab(a.1, b.1) || (a.1 is FUNCTION && b.1 is FUNCTION))
}

/// The class of roles a partial token is matched by: all functions together, any other
/// role up to the priority of a special marker.
pub enum RoleClass {
    Function,
    Other(CompileVocab),
}

pub open spec fn role_class(v: CompileVocab) -> RoleClass {
    match v {
        CompileVocab::FUNCTION(_) => RoleClass::Function,
        CompileVocab::SPECIAL(x, _) => RoleClass::Other(CompileVocab::SPECIAL(x, 0)),
        _ => RoleClass::Other(v),
    }
}

/// The key under which the function matcher files a partial token.
pub open spec fn partial_key(p: (Seq<char>, CompileVocab)) -> (Seq<char>, RoleClass) {
    (p.0, role_class(p.1))
}

impl PartialToken {
    pub fn from(token: &TypedToken) -> (r: PartialToken)
        ensures
            r@ == (token@.token, token@.lang_type),
    {
        PartialToken { token: token.as_string(), lang_type: token.lang_type() }
    }

    /// Changes the role the token is matched by.
    pub fn set_lang_type(&mut self, lang_type: CompileVocab)
        ensures
            final(self)@ == (old(self)@.0, lang_type),
    {
        self.lang_type = lang_type;
    }

    /// The equality of the function matcher.
    pub fn same(&self, other: &PartialToken) -> (r: bool)
        ensures
            r == same_partial(self@, other@),
    {
        if !str_eq(self.token.as_str(), other.token.as_str()) {
            return false;
        }
        let printed_same = match (self.lang_type, other.lang_type) {
            (CompileVocab::SPECIAL(x, _), CompileVocab::SPECIAL(y, _)) => x == y,
            _ => self.lang_type == other.lang_type,
        };
        if printed_same {
            return true;
        }
        matches!(self.lang_type, CompileVocab::FUNCTION(_)) && matches!(other.lang_type, CompileVocab::FUNCTION(_))
    }
}

} // verus!
