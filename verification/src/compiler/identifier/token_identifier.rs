//! The passes that refine a stream of typed tokens: argument types of calls, the
//! types of names declared elsewhere, and the nesting of bracketed groups.
use vstd::prelude::*;
use crate::compiler::identifier::typed_token::{
    TypedToken,
    TypedTokenModel,
    copy_types,
    tokens_view,
};
use crate::compiler::lang::leblanc_lang::{BoundaryType, CompileVocab, FunctionType, spec_stores_native_type, holds_native_type, spec_native_type};
use crate::native_types::LeBlancType;
use crate::rustblanc::{Node, TreeModel, forest_model, flatten_forest, flatten_tree};
use crate::compiler::identifier::type_map::TypeMap;
use crate::compiler::identifier::func_matcher::FuncMatcher;
use crate::compiler::identifier::typed_token::{RoleClass, partial_key, nested_view};
use crate::compiler::lang::leblanc_keywords::LBKeyword;
use crate::rustblanc::{ErrorStub, ErrorStubModel, errors_view};
use crate::text::{str_eq, usize_to_string, decimal};
use crate::compiler::identifier::token::{Token, bare_symbol};
use crate::compiler::lang::leblanc_lang::Specials;

verus! {

/// A call of a function or of a function reference.
pub open spec fn is_call(t: TypedTokenModel) -> bool {
    t.lang_type == CompileVocab::FUNCTION(FunctionType::Call) || t.lang_type
        == CompileVocab::FUNCTION(FunctionType::ReferenceCall)
}

/// The token with `a` added at the end of its argument types.
pub open spec fn add_args(t: TypedTokenModel, a: Seq<LeBlancType>) -> TypedTokenModel {
    TypedTokenModel { typing: t.typing.update(0, t.typing[0] + a), ..t }
}

/// The token with its return types replaced by `r`.
pub open spec fn with_returns(t: TypedTokenModel, r: Seq<LeBlancType>) -> TypedTokenModel {
    TypedTokenModel { typing: t.typing.update(1, r), ..t }
}

/// Whether a token that is not a call gives the call being read an argument type.
pub open spec fn plain_adds(p: TypedTokenModel, can_add: bool) -> bool {
    can_add && match p.lang_type {
        CompileVocab::CONSTANT(_) => true,
        CompileVocab::VARIABLE(_) => true,
        CompileVocab::TYPE(_) => true,
        CompileVocab::FUNCTION(ft) => ft == FunctionType::Reference,
        _ => false,
    }
}

/// What one token that is not a call does to the call whose arguments are being read:
/// the updated call, whether the next token may still give an argument type, the
/// parenthesis depth, and whether the argument list has ended.
pub open spec fn plain_step(p: TypedTokenModel, call: TypedTokenModel, can_add: bool, paren: int) -> (
    TypedTokenModel,
    bool,
    int,
    bool,
) {
    match p.lang_type {
        CompileVocab::CONSTANT(v) => (
            if can_add {
                add_args(call, seq![v])
            } else {
                call
            },
            false,
            paren,
            false,
        ),
        CompileVocab::VARIABLE(v) => (
            if can_add {
                add_args(call, seq![v])
            } else {
                call
            },
            false,
            paren,
            false,
        ),
        CompileVocab::TYPE(v) => (
            if can_add {
                add_args(call, seq![v])
            } else {
                call
            },
            false,
            paren,
            false,
        ),
        CompileVocab::FUNCTION(ft) => if can_add && ft == FunctionType::Reference {
            (add_args(call, seq![LeBlancType::Function]), false, paren, false)
        } else {
            (call, can_add, paren, false)
        },
        CompileVocab::BOUNDARY(b) => match b {
            BoundaryType::ParenthesisOpen => (call, can_add, paren + 1, false),
            BoundaryType::ParenthesisClosed => (call, can_add, paren - 1, paren - 1 == 0),
            BoundaryType::Semicolon => (call, can_add, paren, true),
            BoundaryType::Comma => (call, true, paren, false),
            _ => (call, can_add, paren, false),
        },
        _ => (call, can_add, paren, false),
    }
}

/// Reads the argument list of `call` from `s`: the call as updated, the tokens of the
/// list (nested calls already read), and what follows the list.  `None` when the list
/// does not end before `s` does, or when a typing list that must be read or extended is
/// missing: the call's argument list when it gains a type, or the return list of a
/// nested call whose return types it takes.
pub open spec fn call_region(s: Seq<TypedTokenModel>, call: TypedTokenModel, can_add: bool, paren: int) -> Option<
    (TypedTokenModel, Seq<TypedTokenModel>, Seq<TypedTokenModel>),
>
    decreases s.len(), 0int,
{
    if s.len() == 0 {
        None
    } else {
        let p = s[0];
        let rest = s.drop_first();
        if is_call(p) {
            match call_group(rest, p) {
                None => None,
                Some((inner, rest2)) => if rest2.len() < s.len() && inner.len() > 0 && (can_add ==> (
                inner[0].typing.len() >= 2 && call.typing.len() >= 1)) {
                    let call2 = if can_add {
                        add_args(call, inner[0].typing[1])
                    } else {
                        call
                    };
                    match call_region(rest2, call2, false, paren) {
                        Some((c, out, r)) => Some((c, inner + out, r)),
                        None => None,
                    }
                } else {
                    None
                },
            }
        } else if plain_adds(p, can_add) && call.typing.len() < 1 {
            None
        } else {
            let (call2, can2, paren2, stop) = plain_step(p, call, can_add, paren);
            if stop {
                Some((call2, seq![p], rest))
            } else {
                match call_region(rest, call2, can2, paren2) {
                    Some((c, out, r)) => Some((c, seq![p] + out, r)),
                    None => None,
                }
            }
        }
    }
}

/// Reads a call and its argument list from `s`: the call (a reference call now returns
/// a flexible value, and must have a return list) followed by its list, and what
/// follows.
pub open spec fn call_group(s: Seq<TypedTokenModel>, c: TypedTokenModel) -> Option<
    (Seq<TypedTokenModel>, Seq<TypedTokenModel>),
>
    decreases s.len(), 1int,
{
    let c0 = if c.lang_type == CompileVocab::FUNCTION(FunctionType::ReferenceCall) {
        with_returns(c, seq![LeBlancType::Flex])
    } else {
        c
    };
    if c.lang_type == CompileVocab::FUNCTION(FunctionType::ReferenceCall) && c.typing.len() < 2 {
        None
    } else {
        match call_region(s, c0, true, 0) {
            Some((c1, out, r)) => Some((seq![c1] + out, r)),
            None => None,
        }
    }
}

/// Reads a whole token stream, giving every call the types of its arguments.
pub open spec fn caller_args(s: Seq<TypedTokenModel>) -> Option<Seq<TypedTokenModel>>
    decreases s.len(),
{
    if s.len() == 0 {
        Some(Seq::empty())
    } else if is_call(s[0]) {
        match call_group(s.drop_first(), s[0]) {
            Some((out, rest)) => if rest.len() < s.len() {
                match caller_args(rest) {
                    Some(o) => Some(out + o),
                    None => None,
                }
            } else {
                None
            },
            None => None,
        }
    } else {
        match caller_args(s.drop_first()) {
            Some(o) => Some(seq![s[0]] + o),
            None => None,
        }
    }
}

/// Two tokens that differ at most in their typing.
pub open spec fn same_shape(a: TypedTokenModel, b: TypedTokenModel) -> bool {
    &&& a.token == b.token
    &&& a.line_number == b.line_number
    &&& a.lang_type == b.lang_type
    &&& a.scope == b.scope
    &&& a.global == b.global
}

/// `out` is `inp` token for token, where only calls may have gained typing.
pub open spec fn keeps_tokens(out: Seq<TypedTokenModel>, inp: Seq<TypedTokenModel>) -> bool {
    &&& out.len() == inp.len()
    &&& forall|i: int| 0 <= i < inp.len() ==> same_shape(#[trigger] out[i], inp[i])
    &&& forall|i: int| 0 <= i < inp.len() && !is_call(#[trigger] inp[i]) ==> out[i] == inp[i]
}

proof fn lemma_keeps_concat(
    o1: Seq<TypedTokenModel>,
    i1: Seq<TypedTokenModel>,
    o2: Seq<TypedTokenModel>,
    i2: Seq<TypedTokenModel>,
)
    requires
        keeps_tokens(o1, i1),
        keeps_tokens(o2, i2),
    ensures
        keeps_tokens(o1 + o2, i1 + i2),
{
    assert forall|i: int| 0 <= i < (i1 + i2).len() implies same_shape(#[trigger] (o1 + o2)[i], (
    i1 + i2)[i]) by {
        if i >= i1.len() {
            assert((o1 + o2)[i] == o2[i - i1.len()]);
            assert((i1 + i2)[i] == i2[i - i1.len()]);
        }
    }
    assert forall|i: int| 0 <= i < (i1 + i2).len() && !is_call(#[trigger] (i1 + i2)[i]) implies (
    o1 + o2)[i] == (i1 + i2)[i] by {
        if i >= i1.len() {
            assert((o1 + o2)[i] == o2[i - i1.len()]);
            assert((i1 + i2)[i] == i2[i - i1.len()]);
        }
    }
}

/// An argument list is read from the front of the stream, and the tokens in it are kept.
proof fn lemma_region_keeps(s: Seq<TypedTokenModel>, call: TypedTokenModel, can_add: bool, paren: int)
    requires
        call_region(s, call, can_add, paren) is Some,
    ensures
        ({
            let (c, out, r) = call_region(s, call, can_add, paren)->0;
            &&& r.len() < s.len()
            &&& r == s.subrange(s.len() - r.len(), s.len() as int)
            &&& keeps_tokens(out, s.subrange(0, s.len() - r.len()))
            &&& same_shape(c, call)
        }),
    decreases s.len(), 0int,
{
    let p = s[0];
    let rest = s.drop_first();
    if is_call(p) {
        let (inner, rest2) = call_group(rest, p)->0;
        lemma_group_keeps(rest, p);
        let call2 = if can_add {
            add_args(call, inner[0].typing[1])
        } else {
            call
        };
        lemma_region_keeps(rest2, call2, false, paren);
        let (c, out, r) = call_region(rest2, call2, false, paren)->0;
        assert(rest.subrange(rest.len() - rest2.len(), rest.len() as int) =~= s.subrange(
            s.len() - rest2.len(),
            s.len() as int,
        ));
        assert(r =~= s.subrange(s.len() - r.len(), s.len() as int));
        let k1 = rest.len() - rest2.len();
        assert(seq![p] + rest.subrange(0, k1) =~= s.subrange(0, k1 + 1));
        assert(rest2.subrange(0, rest2.len() - r.len()) =~= s.subrange(
            k1 + 1,
            s.len() - r.len(),
        ));
        lemma_keeps_concat(inner, s.subrange(0, k1 + 1), out, s.subrange(k1 + 1, s.len() - r.len()));
        assert(s.subrange(0, k1 + 1) + s.subrange(k1 + 1, s.len() - r.len()) =~= s.subrange(
            0,
            s.len() - r.len(),
        ));
    } else {
        let (call2, can2, paren2, stop) = plain_step(p, call, can_add, paren);
        assert(keeps_tokens(seq![p], seq![p]));
        if stop {
            assert(rest =~= s.subrange(1, s.len() as int));
            assert(seq![p] =~= s.subrange(0, 1));
        } else {
            lemma_region_keeps(rest, call2, can2, paren2);
            let (c, out, r) = call_region(rest, call2, can2, paren2)->0;
            assert(r =~= s.subrange(s.len() - r.len(), s.len() as int));
            assert(rest.subrange(0, rest.len() - r.len()) =~= s.subrange(1, s.len() - r.len()));
            lemma_keeps_concat(seq![p], seq![p], out, s.subrange(1, s.len() - r.len()));
            assert(seq![p] + s.subrange(1, s.len() - r.len()) =~= s.subrange(0, s.len() - r.len()));
        }
    }
}

/// A call and its argument list are read from the front of the stream, and kept.
proof fn lemma_group_keeps(s: Seq<TypedTokenModel>, c: TypedTokenModel)
    requires
        is_call(c),
        call_group(s, c) is Some,
    ensures
        ({
            let (out, r) = call_group(s, c)->0;
            &&& r.len() < s.len()
            &&& r == s.subrange(s.len() - r.len(), s.len() as int)
            &&& keeps_tokens(out, seq![c] + s.subrange(0, s.len() - r.len()))
        }),
    decreases s.len(), 1int,
{
    let c0 = if c.lang_type == CompileVocab::FUNCTION(FunctionType::ReferenceCall) {
        with_returns(c, seq![LeBlancType::Flex])
    } else {
        c
    };
    lemma_region_keeps(s, c0, true, 0);
    let (c1, out, r) = call_region(s, c0, true, 0)->0;
    assert(keeps_tokens(seq![c1], seq![c]));
    lemma_keeps_concat(seq![c1], seq![c], out, s.subrange(0, s.len() - r.len()));
}

/// Reading the argument types of calls keeps every token in its place: only the
/// typing of calls changes.
pub proof fn caller_args_keeps_tokens(s: Seq<TypedTokenModel>)
    requires
        caller_args(s) is Some,
    ensures
        keeps_tokens(caller_args(s)->0, s),
    decreases s.len(),
{
    if s.len() == 0 {
    } else if is_call(s[0]) {
        let (out, rest) = call_group(s.drop_first(), s[0])->0;
        lemma_group_keeps(s.drop_first(), s[0]);
        caller_args_keeps_tokens(rest);
        let k = s.len() - 1 - rest.len();
        assert(seq![s[0]] + s.drop_first().subrange(0, k) =~= s.subrange(0, k + 1));
        assert(rest =~= s.subrange(k + 1, s.len() as int));
        lemma_keeps_concat(out, s.subrange(0, k + 1), caller_args(rest)->0, rest);
        assert(s.subrange(0, k + 1) + rest =~= s);
    } else {
        caller_args_keeps_tokens(s.drop_first());
        assert(keeps_tokens(seq![s[0]], seq![s[0]]));
        lemma_keeps_concat(seq![s[0]], seq![s[0]], caller_args(s.drop_first())->0, s.drop_first());
        assert(seq![s[0]] + s.drop_first() =~= s);
    }
}

/// Reads the argument list of `token`, a call, from the front of `typed_tokens`.
fn read_call(typed_tokens: &mut Vec<TypedToken>, token: TypedToken) -> (r: Vec<TypedToken>)
    requires
        is_call(token@),
        old(typed_tokens)@.len() < i32::MAX,
        call_group(tokens_view(old(typed_tokens)@), token@) is Some,
    ensures
        call_group(tokens_view(old(typed_tokens)@), token@) == Some(
            (tokens_view(r@), tokens_view(final(typed_tokens)@)),
        ),
        r@.len() > 0,
        final(typed_tokens)@.len() < old(typed_tokens)@.len(),
    decreases old(typed_tokens)@.len(),
{
    let ghost s0 = tokens_view(typed_tokens@);
    let ghost n0 = typed_tokens@.len();
    let mut token = token;
    if token.lang_type() == CompileVocab::FUNCTION(FunctionType::ReferenceCall) {
        let mut flex = Vec::new();
        flex.push(LeBlancType::Flex);
        token.set_typing_returns(flex);
        assert(seq![LeBlancType::Flex] =~= flex@);
    }
    let ghost target = call_region(s0, token@, true, 0);
    let ghost len0 = token@.typing.len();
    let mut func_tokens: Vec<TypedToken> = Vec::new();
    let mut can_add_type = true;
    let mut hit_boundary = false;
    let mut parenthesis_amount: i32 = 0;
    while !hit_boundary
        invariant
            token@.typing.len() == len0,
            typed_tokens@.len() <= n0,
            n0 == old(typed_tokens)@.len(),
            n0 < i32::MAX,
            -(n0 - typed_tokens@.len()) <= parenthesis_amount <= n0 - typed_tokens@.len(),
            target is Some,
            !hit_boundary ==> (call_region(
                tokens_view(typed_tokens@),
                token@,
                can_add_type,
                parenthesis_amount as int,
            ) matches Some((c, out, r)) && target == Some(
                (c, tokens_view(func_tokens@) + out, r),
            )),
            hit_boundary ==> target == Some(
                (token@, tokens_view(func_tokens@), tokens_view(typed_tokens@)),
            ),
            hit_boundary ==> typed_tokens@.len() < n0,
        decreases typed_tokens@.len(),
    {
        let ghost cur = tokens_view(typed_tokens@);
        let ghost ft_before = tokens_view(func_tokens@);
        let func_param = typed_tokens.remove(0);
        assert(tokens_view(typed_tokens@) =~= cur.drop_first());
        assert(func_param@ == cur[0]);
        let lt = func_param.lang_type();
        if lt == CompileVocab::FUNCTION(FunctionType::Call) || lt == CompileVocab::FUNCTION(
            FunctionType::ReferenceCall,
        ) {
            let mut token_list = read_call(typed_tokens, func_param);
            if can_add_type {
                let mut ret_types = copy_types(&token_list[0].typing()[1]);
                assert(ret_types@ == tokens_view(token_list@)[0].typing[1]);
                token.set_typing_args(&mut ret_types);
            }
            let ghost tl = tokens_view(token_list@);
            func_tokens.append(&mut token_list);
            assert(tokens_view(func_tokens@) =~= ft_before + tl);
            can_add_type = false;
        } else {
            match lt {
                CompileVocab::CONSTANT(value) | CompileVocab::VARIABLE(value) | CompileVocab::TYPE(
                    value,
                ) => {
                    if can_add_type {
                        let mut v = Vec::new();
                        v.push(value);
                        assert(v@ =~= seq![value]);
                        token.set_typing_args(&mut v);
                    }
                    can_add_type = false;
                },
                CompileVocab::FUNCTION(func_type) => {
                    if can_add_type && func_type == FunctionType::Reference {
                        let mut v = Vec::new();
                        v.push(LeBlancType::Function);
                        assert(v@ =~= seq![LeBlancType::Function]);
                        token.set_typing_args(&mut v);
                        can_add_type = false;
                    }
                },
                CompileVocab::BOUNDARY(boundary) => {
                    match boundary {
                        BoundaryType::ParenthesisOpen => parenthesis_amount = parenthesis_amount
                            + 1,
                        BoundaryType::ParenthesisClosed => {
                            parenthesis_amount = parenthesis_amount - 1;
                            if parenthesis_amount == 0 {
                                hit_boundary = true
                            }
                        },
                        BoundaryType::Semicolon => hit_boundary = true,
                        BoundaryType::Comma => can_add_type = true,
                        _ => {},
                    }
                },
                _ => {},
            }
            let ghost p = func_param@;
            func_tokens.push(func_param);
            assert(tokens_view(func_tokens@) =~= ft_before.push(p));
            assert(ft_before.push(p) + tokens_view(typed_tokens@) =~= ft_before + (seq![p]
                + tokens_view(typed_tokens@)));
        }
    }
    let mut result: Vec<TypedToken> = Vec::new();
    let ghost tv = token@;
    result.push(token);
    let ghost fv = tokens_view(func_tokens@);
    result.append(&mut func_tokens);
    assert(tokens_view(result@) =~= seq![tv] + fv);
    result
}

/// Gives every call in the stream the types of its arguments, and every reference call
/// a flexible return value.  With no pending call the whole stream is read; with a
/// pending call, that call and its argument list are read first (a pending token that
/// is no call is passed on, and the rest of the stream read after it).
pub fn identify_caller_function_args2(
    typed_tokens: &mut Vec<TypedToken>,
    func_call: Option<TypedToken>,
) -> (r: Vec<TypedToken>)
    requires
        old(typed_tokens)@.len() < i32::MAX,
        match func_call {
            None => caller_args(tokens_view(old(typed_tokens)@)) is Some,
            Some(c) => old(typed_tokens)@.len() == 0 || (if is_call(c@) {
                call_group(tokens_view(old(typed_tokens)@), c@) is Some
            } else {
                caller_args(tokens_view(old(typed_tokens)@)) is Some
            }),
        },
    ensures
        match func_call {
            None => tokens_view(r@) == caller_args(tokens_view(old(typed_tokens)@))->0
                && final(typed_tokens)@.len() == 0,
            Some(c) => if old(typed_tokens)@.len() == 0 {
                r@.len() == 0 && final(typed_tokens)@.len() == 0
            } else if is_call(c@) {
                call_group(tokens_view(old(typed_tokens)@), c@) == Some(
                    (tokens_view(r@), tokens_view(final(typed_tokens)@)),
                )
            } else {
                tokens_view(r@) == seq![c@] + caller_args(tokens_view(old(typed_tokens)@))->0
                    && final(typed_tokens)@.len() == 0
            },
        },
{
    let mut new_typed_tokens: Vec<TypedToken> = Vec::new();
    match func_call {
        Some(token) => {
            if typed_tokens.len() == 0 {
                return new_typed_tokens;
            }
            let lt = token.lang_type();
            if lt == CompileVocab::FUNCTION(FunctionType::Call) || lt == CompileVocab::FUNCTION(
                FunctionType::ReferenceCall,
            ) {
                return read_call(typed_tokens, token);
            }
            new_typed_tokens.push(token);
        },
        None => {},
    }
    let ghost prefix = tokens_view(new_typed_tokens@);
    let ghost target = caller_args(tokens_view(typed_tokens@));
    while !typed_tokens.is_empty()
        invariant
            typed_tokens@.len() < i32::MAX,
            caller_args(tokens_view(typed_tokens@)) matches Some(o) && target == Some(
                tokens_view(new_typed_tokens@).subrange(prefix.len() as int, new_typed_tokens@.len() as int) + o,
            ),
            prefix.len() <= new_typed_tokens@.len(),
            tokens_view(new_typed_tokens@).subrange(0, prefix.len() as int) == prefix,
        decreases typed_tokens@.len(),
    {
        let ghost cur = tokens_view(typed_tokens@);
        let ghost nv = tokens_view(new_typed_tokens@);
        let token = typed_tokens.remove(0);
        assert(tokens_view(typed_tokens@) =~= cur.drop_first());
        assert(token@ == cur[0]);
        let lt = token.lang_type();
        if lt == CompileVocab::FUNCTION(FunctionType::Call) || lt == CompileVocab::FUNCTION(
            FunctionType::ReferenceCall,
        ) {
            let mut group = read_call(typed_tokens, token);
            let ghost g = tokens_view(group@);
            new_typed_tokens.append(&mut group);
            assert(tokens_view(new_typed_tokens@) =~= nv + g);
            assert(tokens_view(new_typed_tokens@).subrange(0, prefix.len() as int) =~= nv.subrange(
                0,
                prefix.len() as int,
            ));
            assert(tokens_view(new_typed_tokens@).subrange(
                prefix.len() as int,
                new_typed_tokens@.len() as int,
            ) =~= nv.subrange(prefix.len() as int, nv.len() as int) + g);
        } else {
            let ghost tv = token@;
            new_typed_tokens.push(token);
            assert(tokens_view(new_typed_tokens@) =~= nv.push(tv));
            assert(tokens_view(new_typed_tokens@).subrange(0, prefix.len() as int) =~= nv.subrange(
                0,
                prefix.len() as int,
            ));
            assert(tokens_view(new_typed_tokens@).subrange(
                prefix.len() as int,
                new_typed_tokens@.len() as int,
            ) =~= nv.subrange(prefix.len() as int, nv.len() as int).push(tv));
        }
    }
    assert(tokens_view(new_typed_tokens@) =~= prefix + tokens_view(new_typed_tokens@).subrange(
        prefix.len() as int,
        new_typed_tokens@.len() as int,
    ));
    new_typed_tokens
}

/// The state of `identify_functions` while it reads the stream: the index of the name of
/// the function whose header is being read (0 for none), whether its return types are
/// being read, the types read so far, the function matcher, the tokens and the errors.
pub struct FnScan {
    pub ndi: int,
    pub in_returns: bool,
    pub return_types: Seq<LeBlancType>,
    pub arg_types: Seq<LeBlancType>,
    pub matcher: Map<(Seq<char>, RoleClass), Seq<Seq<LeBlancType>>>,
    pub tokens: Seq<TypedTokenModel>,
    pub errors: Seq<ErrorStubModel>,
}

/// Every token carries both an argument and a return list.
pub open spec fn all_typed(s: Seq<TypedTokenModel>) -> bool {
    forall|i: int| 0 <= i < s.len() ==> (#[trigger] s[i]).typing.len() >= 2
}

/// The function matcher key of a token.
pub open spec fn token_key(t: TypedTokenModel) -> (Seq<char>, RoleClass) {
    partial_key((t.token, t.lang_type))
}

/// Reading the token at index `i` of a function header scan.
pub open spec fn fn_scan_step(st: FnScan, i: int) -> FnScan {
    let token = st.tokens[i];
    let lt = token.lang_type;
    if lt == CompileVocab::KEYWORD(LBKeyword::Func) {
        if st.ndi != 0 {
            FnScan {
                arg_types: Seq::empty(),
                ndi: i + 1,
                matcher: st.matcher.insert(
                    token_key(st.tokens[st.ndi]),
                    seq![seq![LeBlancType::Class(0)], Seq::empty()],
                ),
                tokens: st.tokens.update(
                    st.ndi,
                    with_returns(st.tokens[st.ndi], seq![LeBlancType::Class(0)]),
                ),
                ..st
            }
        } else {
            FnScan { arg_types: Seq::empty(), ndi: i + 1, ..st }
        }
    } else if lt == CompileVocab::KEYWORD(LBKeyword::Returns) && st.ndi > 0 {
        FnScan { in_returns: true, ..st }
    } else if st.in_returns {
        if lt == CompileVocab::BOUNDARY(BoundaryType::BraceOpen) {
            FnScan {
                in_returns: false,
                matcher: st.matcher.insert(
                    token_key(st.tokens[st.ndi]),
                    seq![st.arg_types, st.return_types],
                ),
                tokens: st.tokens.update(
                    st.ndi,
                    add_args(with_returns(st.tokens[st.ndi], st.return_types), st.arg_types),
                ),
                return_types: Seq::empty(),
                arg_types: Seq::empty(),
                ndi: 0,
                ..st
            }
        } else if lt == CompileVocab::KEYWORD(LBKeyword::SelfRT) {
            st
        } else if lt is TYPE {
            FnScan { return_types: st.return_types.push(lt->TYPE_0), ..st }
        } else if lt != CompileVocab::BOUNDARY(BoundaryType::Comma) {
            FnScan { errors: st.errors.push(ErrorStubModel::InvalidSyntax(token)), ..st }
        } else {
            st
        }
    } else if lt == CompileVocab::KEYWORD(LBKeyword::SelfRT) {
        if st.ndi > 0 {
            FnScan { arg_types: st.arg_types.push(LeBlancType::SelfType), ..st }
        } else {
            st
        }
    } else if lt is TYPE {
        if st.ndi > 0 {
            FnScan { arg_types: st.arg_types.push(lt->TYPE_0), ..st }
        } else {
            st
        }
    } else {
        st
    }
}

/// The state after reading the first `n` tokens.
pub open spec fn fn_scan(start: FnScan, n: int) -> FnScan
    decreases n,
{
    if n <= 0 {
        start
    } else {
        fn_scan_step(fn_scan(start, n - 1), n - 1)
    }
}

/// The state a function header scan starts from.
pub open spec fn fn_scan_start(
    tokens: Seq<TypedTokenModel>,
    matcher: Map<(Seq<char>, RoleClass), Seq<Seq<LeBlancType>>>,
    errors: Seq<ErrorStubModel>,
) -> FnScan {
    FnScan {
        ndi: 0,
        in_returns: false,
        return_types: Seq::empty(),
        arg_types: Seq::empty(),
        matcher,
        tokens,
        errors,
    }
}

/// Reads the function headers: each function name gets the argument types listed after
/// it and the return types listed after the `returns` keyword, and is filed in the function matcher
/// under those types; a function header without return types is filed as returning an
/// unknown class.  Anything but a type or a comma among the return types is an error.
pub fn identify_functions(
    typed_tokens: &mut Vec<TypedToken>,
    func_matcher: &mut FuncMatcher,
    errors: &mut Vec<ErrorStub>,
)
    requires
        all_typed(tokens_view(old(typed_tokens)@)),
        old(func_matcher).wf(),
    ensures
        final(func_matcher).wf(),
        ({
            let st = fn_scan(
                fn_scan_start(
                    tokens_view(old(typed_tokens)@),
                    old(func_matcher)@,
                    errors_view(old(errors)@),
                ),
                old(typed_tokens)@.len() as int,
            );
            &&& tokens_view(final(typed_tokens)@) == st.tokens
            &&& final(func_matcher)@ == st.matcher
            &&& errors_view(final(errors)@) == st.errors
        }),
{
    let ghost start = fn_scan_start(tokens_view(typed_tokens@), func_matcher@, errors_view(errors@));
    let mut ndi: usize = 0;
    let mut in_returns = false;
    let mut return_types: Vec<LeBlancType> = Vec::new();
    let mut arg_types: Vec<LeBlancType> = Vec::new();
    let n = typed_tokens.len();
    let mut i: usize = 0;
    while i < n
        invariant
            n == typed_tokens@.len(),
            i <= n,
            func_matcher.wf(),
            all_typed(tokens_view(typed_tokens@)),
            ndi <= i,
            in_returns ==> ndi > 0,
            ({
                let st = fn_scan(start, i as int);
                &&& st.ndi == ndi
                &&& st.in_returns == in_returns
                &&& st.return_types == return_types@
                &&& st.arg_types == arg_types@
                &&& st.matcher == func_matcher@
                &&& st.tokens == tokens_view(typed_tokens@)
                &&& st.errors == errors_view(errors@)
            }),
        decreases n - i,
    {
        let ghost st = fn_scan(start, i as int);
        let ghost tv = tokens_view(typed_tokens@);
        let lt = typed_tokens[i].lang_type();
        if lt == CompileVocab::KEYWORD(LBKeyword::Func) {
            arg_types = Vec::new();
            if ndi != 0 {
                let key = typed_tokens[ndi].as_partial();
                let mut first: Vec<LeBlancType> = Vec::new();
                first.push(LeBlancType::Class(0));
                let mut value: Vec<Vec<LeBlancType>> = Vec::new();
                value.push(first);
                value.push(Vec::new());
                assert(nested_view(value@) =~= seq![seq![LeBlancType::Class(0)], Seq::<LeBlancType>::empty()]);
                func_matcher.insert(key, value);
                let mut t = typed_tokens.remove(ndi);
                let mut cls: Vec<LeBlancType> = Vec::new();
                cls.push(LeBlancType::Class(0));
                assert(cls@ =~= seq![LeBlancType::Class(0)]);
                t.set_typing_returns(cls);
                typed_tokens.insert(ndi, t);
                assert(tokens_view(typed_tokens@) =~= tv.update(
                    ndi as int,
                    with_returns(tv[ndi as int], seq![LeBlancType::Class(0)]),
                ));
            }
            ndi = i + 1;
        } else if lt == CompileVocab::KEYWORD(LBKeyword::Returns) && ndi > 0 {
            in_returns = true;
        } else if in_returns {
            if lt == CompileVocab::BOUNDARY(BoundaryType::BraceOpen) {
                in_returns = false;
                let key = typed_tokens[ndi].as_partial();
                let ghost av = arg_types@;
                let ghost rv = return_types@;
                let mut value: Vec<Vec<LeBlancType>> = Vec::new();
                value.push(copy_types(&arg_types));
                value.push(copy_types(&return_types));
                assert(nested_view(value@) =~= seq![av, rv]);
                func_matcher.insert(key, value);
                let mut t = typed_tokens.remove(ndi);
                t.set_typing_returns(return_types);
                t.set_typing_args(&mut arg_types);
                typed_tokens.insert(ndi, t);
                assert(tokens_view(typed_tokens@) =~= tv.update(
                    ndi as int,
                    add_args(with_returns(tv[ndi as int], rv), av),
                ));
                return_types = Vec::new();
                ndi = 0;
            } else if lt == CompileVocab::KEYWORD(LBKeyword::SelfRT) {
            } else if let CompileVocab::TYPE(return_type) = lt {
                return_types.push(return_type);
            } else if lt != CompileVocab::BOUNDARY(BoundaryType::Comma) {
                errors.push(ErrorStub::InvalidSyntax(typed_tokens[i].clone()));
            }
        } else if lt == CompileVocab::KEYWORD(LBKeyword::SelfRT) {
            if ndi > 0 {
                arg_types.push(LeBlancType::SelfType);
            }
        } else if let CompileVocab::TYPE(arg_type) = lt {
            if ndi > 0 {
                arg_types.push(arg_type);
            }
        }
        proof {
            assert(fn_scan(start, i + 1) == fn_scan_step(st, i as int));
            assert(all_typed(tokens_view(typed_tokens@))) by {
                assert forall|j: int| 0 <= j < tokens_view(typed_tokens@).len() implies (
                #[trigger] tokens_view(typed_tokens@)[j]).typing.len() >= 2 by {
                    assert(tv[j].typing.len() >= 2);
                }
            }
        }
        i = i + 1;
    }
}

/// The result of a read whose scopes are known: one scope list per name, outermost
/// (global) scope first.
pub open spec fn resolve_unknown(t: TypedTokenModel, m: Map<Seq<char>, Seq<Seq<CompileVocab>>>) -> TypedTokenModel {
    match t.lang_type {
        CompileVocab::UNKNOWN(LeBlancType::Class(class_value)) => if m.contains_key(t.token) {
            let scopes = m[t.token];
            if scopes.len() > 0 && scopes[0].len() > 0 {
                TypedTokenModel { scope: 0, lang_type: scopes[0][0], ..t }
            } else if class_value > 0 && class_value < scopes.len()
                && scopes[class_value as int].len() > 0 {
                TypedTokenModel {
                    scope: class_value as i32,
                    lang_type: scopes[class_value as int][0],
                    ..t
                }
            } else {
                t
            }
        } else {
            t
        },
        _ => t,
    }
}

/// Gives every token of unknown type the type recorded for its name: the global one
/// when there is one, else the one of the class scope the token stands in.
pub fn identify_unknown(typed_tokens: &mut Vec<TypedToken>, type_map: &mut TypeMap)
    requires
        old(type_map).wf(),
    ensures
        tokens_view(final(typed_tokens)@) == tokens_view(old(typed_tokens)@).map_values(
            |t: TypedTokenModel| resolve_unknown(t, old(type_map)@),
        ),
        final(type_map)@ == old(type_map)@,
        final(type_map).wf(),
{
    let ghost m = type_map@;
    let ghost s0 = tokens_view(typed_tokens@);
    let mut i: usize = 0;
    while i < typed_tokens.len()
        invariant
            type_map.wf(),
            type_map@ == m,
            typed_tokens@.len() == s0.len(),
            i <= typed_tokens@.len(),
            forall|j: int|
                0 <= j < i ==> #[trigger] tokens_view(typed_tokens@)[j] == resolve_unknown(
                    s0[j],
                    m,
                ),
            forall|j: int| i <= j < s0.len() ==> #[trigger] tokens_view(typed_tokens@)[j] == s0[j],
        decreases typed_tokens@.len() - i,
    {
        let ghost before = tokens_view(typed_tokens@);
        assert(before[i as int] == s0[i as int]);
        let mut token = typed_tokens.remove(i);
        let ghost t0 = token@;
        assert(t0 == before[i as int]);
        if let CompileVocab::UNKNOWN(LeBlancType::Class(class_value)) = token.lang_type() {
            let name = token.as_string();
            match type_map.get(name.as_str()) {
                Some(scopes) => {
                    if scopes.len() > 0 && scopes[0].len() > 0 {
                        let v = scopes[0][0];
                        token.set_scope(0);
                        token.set_type(v);
                    } else if class_value > 0 && (class_value as usize) < scopes.len() && scopes[class_value as usize].len() > 0 {
                        let v = scopes[class_value as usize][0];
                        token.set_scope(class_value as i32);
                        token.set_type(v);
                    }
                },
                None => {},
            }
        }
        assert(token@ == resolve_unknown(t0, m));
        let ghost tv = token@;
        typed_tokens.insert(i, token);
        assert(tokens_view(typed_tokens@) =~= before.update(i as int, tv));
        i = i + 1;
    }
    assert(tokens_view(typed_tokens@) =~= s0.map_values(|t: TypedTokenModel| resolve_unknown(t, m)));
}

/// How a file is compiled: in full, or only for the signatures it exports.
#[derive(Clone, Copy, Debug, PartialEq, Eq, Structural)]
pub enum CompilationMode {
    Standard,
    StubFile,
}

/// The state of `create_ownership` while it reads the stream: the finished trees, the
/// open brackets (innermost last) with what has been read inside them, and the kind of
/// the innermost open bracket.
pub struct OwnershipState {
    pub nodes: Seq<TreeModel>,
    pub parents: Seq<TreeModel>,
    pub parent_type: BoundaryType,
}

/// A tree with one more child at its end.
pub open spec fn add_child(t: TreeModel, c: TreeModel) -> TreeModel {
    match t {
        TreeModel::Branch(v, cs) => TreeModel::Branch(v, cs.push(c)),
    }
}

/// A token with nothing under it.
pub open spec fn leaf(t: TypedTokenModel) -> TreeModel {
    TreeModel::Branch(t, Seq::empty())
}

/// The token at the root of a tree.
pub open spec fn root(t: TreeModel) -> TypedTokenModel {
    match t {
        TreeModel::Branch(v, _) => v,
    }
}

/// Whether `t` closes a bracket of the kind `open`.
pub open spec fn closes(open: BoundaryType, t: TypedTokenModel) -> bool {
    (open == BoundaryType::ParenthesisOpen && t.lang_type == CompileVocab::BOUNDARY(
        BoundaryType::ParenthesisClosed,
    )) || (open == BoundaryType::BracketOpen && t.lang_type == CompileVocab::BOUNDARY(
        BoundaryType::BracketClosed,
    ))
}

/// Reading one token.
pub open spec fn ownership_step(st: OwnershipState, t: TypedTokenModel, stub: bool) -> OwnershipState {
    if stub {
        OwnershipState { nodes: st.nodes.push(leaf(t)), ..st }
    } else if t.lang_type == CompileVocab::BOUNDARY(BoundaryType::ParenthesisOpen) || t.lang_type
        == CompileVocab::BOUNDARY(BoundaryType::BracketOpen) {
        OwnershipState {
            nodes: st.nodes,
            parents: st.parents.push(leaf(t)),
            parent_type: t.lang_type->BOUNDARY_0,
        }
    } else if closes(st.parent_type, t) {
        if st.parents.len() == 0 {
            OwnershipState { parent_type: BoundaryType::DNE, ..st }
        } else {
            let p = st.parents.last();
            let rest = st.parents.drop_last();
            if rest.len() > 0 {
                let top = add_child(add_child(rest.last(), p), leaf(t));
                OwnershipState {
                    nodes: st.nodes,
                    parents: rest.drop_last().push(top),
                    parent_type: match root(top).lang_type {
                        CompileVocab::BOUNDARY(b) => b,
                        _ => BoundaryType::DNE,
                    },
                }
            } else {
                OwnershipState {
                    nodes: st.nodes.push(p).push(leaf(t)),
                    parents: rest,
                    parent_type: BoundaryType::DNE,
                }
            }
        }
    } else if st.parents.len() > 0 {
        OwnershipState {
            parents: st.parents.drop_last().push(add_child(st.parents.last(), leaf(t))),
            ..st
        }
    } else {
        OwnershipState { nodes: st.nodes.push(leaf(t)), ..st }
    }
}

/// The state after reading a stream.
pub open spec fn ownership_fold(s: Seq<TypedTokenModel>, stub: bool) -> OwnershipState
    decreases s.len(),
{
    if s.len() == 0 {
        OwnershipState {
            nodes: Seq::empty(),
            parents: Seq::empty(),
            parent_type: BoundaryType::DNE,
        }
    } else {
        ownership_step(ownership_fold(s.drop_last(), stub), s.last(), stub)
    }
}

/// The trees made of a stream: the finished ones, and the innermost bracket still open.
pub open spec fn ownership(s: Seq<TypedTokenModel>, stub: bool) -> Seq<TreeModel> {
    let st = ownership_fold(s, stub);
    if st.parents.len() > 0 {
        st.nodes.push(st.parents.last())
    } else {
        st.nodes
    }
}

/// A node holding one token and nothing under it.
fn leaf_node(t: TypedToken) -> (r: Node)
    ensures
        r.model() == leaf(t@),
{
    let r = Node::new(t);
    assert(match r.model() {
        TreeModel::Branch(_, cs) => cs,
    } =~= Seq::<TreeModel>::empty());
    r
}

/// Gives a node one more child.
fn push_child(n: Node, c: Node) -> (r: Node)
    ensures
        r.model() == add_child(n.model(), c.model()),
{
    let Node { value, mut children } = n;
    let ghost old_children = children@;
    children.push(c);
    let r = Node { value, children };
    assert(match r.model() {
        TreeModel::Branch(_, cs) => cs,
    } =~= match n.model() {
        TreeModel::Branch(_, cs) => cs,
    }.push(c.model()));
    r
}

/// Nests the tokens between matching parentheses and brackets under the opening one,
/// the closing one following the group; in stub mode every token stands alone.
pub fn create_ownership(typed_tokens: Vec<TypedToken>, mode: CompilationMode) -> (r: Vec<Node>)
    ensures
        forest_model(r@) == ownership(tokens_view(typed_tokens@), mode == CompilationMode::StubFile),
{
    let ghost s = tokens_view(typed_tokens@);
    let ghost stub = mode == CompilationMode::StubFile;
    let mut node_tokens: Vec<Node> = Vec::new();
    let mut parents: Vec<Node> = Vec::new();
    let mut parent_type = BoundaryType::DNE;
    let n = typed_tokens.len();
    let mut i: usize = 0;
    while i < n
        invariant
            n == s.len(),
            s == tokens_view(typed_tokens@),
            stub == (mode == CompilationMode::StubFile),
            i <= n,
            ({
                let st = ownership_fold(s.subrange(0, i as int), stub);
                &&& forest_model(node_tokens@) == st.nodes
                &&& forest_model(parents@) == st.parents
                &&& parent_type == st.parent_type
            }),
        decreases n - i,
    {
        let ghost k = i as int;
        let typed_token = typed_tokens[i].clone();
        let ghost t = typed_token@;
        assert(s[k] == t);
        assert(s.subrange(0, k + 1).drop_last() =~= s.subrange(0, k));
        assert(s.subrange(0, k + 1).last() == t);
        let ghost st = ownership_fold(s.subrange(0, k), stub);
        let ghost nodes0 = node_tokens@;
        let ghost parents0 = parents@;
        let lang_type = typed_token.lang_type();
        if mode == CompilationMode::StubFile {
            node_tokens.push(leaf_node(typed_token));
            assert(forest_model(node_tokens@) =~= st.nodes.push(leaf(t)));
        } else if lang_type == CompileVocab::BOUNDARY(BoundaryType::ParenthesisOpen) || lang_type
            == CompileVocab::BOUNDARY(BoundaryType::BracketOpen) {
            if let CompileVocab::BOUNDARY(boundary_type) = lang_type {
                parent_type = boundary_type
            }
            parents.push(leaf_node(typed_token));
            assert(forest_model(parents@) =~= st.parents.push(leaf(t)));
        } else if (parent_type == BoundaryType::ParenthesisOpen && lang_type == CompileVocab::BOUNDARY(
            BoundaryType::ParenthesisClosed,
        )) || (parent_type == BoundaryType::BracketOpen && lang_type == CompileVocab::BOUNDARY(
            BoundaryType::BracketClosed,
        )) {
            parent_type = BoundaryType::DNE;
            if !parents.is_empty() {
                let p = parents.pop().unwrap();
                assert(forest_model(parents@) =~= st.parents.drop_last());
                if !parents.is_empty() {
                    let top = parents.pop().unwrap();
                    assert(forest_model(parents@) =~= st.parents.drop_last().drop_last());
                    let top = push_child(top, p);
                    let top = push_child(top, leaf_node(typed_token));
                    if let CompileVocab::BOUNDARY(boundary_type) = top.value.lang_type() {
                        parent_type = boundary_type
                    }
                    parents.push(top);
                    assert(forest_model(parents@) =~= st.parents.drop_last().drop_last().push(
                        add_child(add_child(st.parents.drop_last().last(), p.model()), leaf(t)),
                    ));
                } else {
                    node_tokens.push(p);
                    node_tokens.push(leaf_node(typed_token));
                    assert(forest_model(node_tokens@) =~= st.nodes.push(
                        st.parents.last(),
                    ).push(leaf(t)));
                        }
            }
        } else if !parents.is_empty() {
            let top = parents.pop().unwrap();
            assert(forest_model(parents@) =~= st.parents.drop_last());
            let top = push_child(top, leaf_node(typed_token));
            parents.push(top);
            assert(forest_model(parents@) =~= st.parents.drop_last().push(
                add_child(st.parents.last(), leaf(t)),
            ));
        } else {
            node_tokens.push(leaf_node(typed_token));
            assert(forest_model(node_tokens@) =~= st.nodes.push(leaf(t)));
        }
        proof {
            let st2 = ownership_step(st, t, stub);
            assert(ownership_fold(s.subrange(0, k + 1), stub) == st2);
            assert(forest_model(node_tokens@) == st2.nodes);
            assert(forest_model(parents@) == st2.parents);
            assert(parent_type == st2.parent_type);
        }
        i = i + 1;
    }
    assert(s.subrange(0, n as int) =~= s);
    if !parents.is_empty() {
        let ghost pv = forest_model(parents@);
        let last = parents.pop().unwrap();
        node_tokens.push(last);
        assert(forest_model(node_tokens@) =~= ownership_fold(s, stub).nodes.push(pv.last()));
    }
    node_tokens
}

/// How the body of a lambda ends: a brace block counts its open braces, an expression
/// its open parentheses.
#[derive(Clone, Copy, Debug, PartialEq, Eq, Structural)]
pub enum LambdaCloser {
    BraceCloser(i64),
    SemiColonCloser(i64),
}

pub open spec fn spec_should_break(c: LambdaCloser, other: Seq<char>) -> bool {
    match c {
        LambdaCloser::BraceCloser(n) => n == 0 && other == "{"@,
        LambdaCloser::SemiColonCloser(n) => if n == 0 {
            other == ")"@
        } else {
            other == ";"@
        },
    }
}

impl LambdaCloser {
    pub fn should_break(&self, other: String) -> (r: bool)
        ensures
            r == spec_should_break(*self, other@),
    {
        match self {
            LambdaCloser::BraceCloser(n) => {
                if *n == 0 {
                    str_eq(other.as_str(), "{")
                } else {
                    false
                }
            },
            LambdaCloser::SemiColonCloser(n) => {
                if *n == 0 {
                    str_eq(other.as_str(), ")")
                } else {
                    str_eq(other.as_str(), ";")
                }
            },
        }
    }
}


/// The marker that opens and closes the argument list of a lambda.
pub open spec fn is_lambda_marker(t: TypedTokenModel) -> bool {
    t.lang_type == CompileVocab::SPECIAL(Specials::LambdaMarker, 120)
}

/// A boundary token of the given kind.
pub open spec fn is_boundary(t: TypedTokenModel, b: BoundaryType) -> bool {
    t.lang_type == CompileVocab::BOUNDARY(b)
}

/// Reads the argument list of a lambda, the opening marker already read: the arguments
/// without the commas between them, the closing marker, and what follows the marker.
/// `None` where no marker closes the list.
pub open spec fn lambda_args(rest: Seq<TypedTokenModel>) -> Option<
    (Seq<TypedTokenModel>, TypedTokenModel, Seq<TypedTokenModel>),
>
    decreases rest.len(),
{
    if rest.len() == 0 {
        None
    } else if is_lambda_marker(rest[0]) {
        Some((Seq::empty(), rest[0], rest.drop_first()))
    } else {
        match lambda_args(rest.drop_first()) {
            None => None,
            Some((a, m, after)) => if is_boundary(rest[0], BoundaryType::Comma) {
                Some((a, m, after))
            } else {
                Some((seq![rest[0]] + a, m, after))
            },
        }
    }
}

/// How a lambda body decides where it ends, from its first token: a brace opens a block,
/// a parenthesis a parenthesised expression, anything else an expression up to `;`.
pub open spec fn initial_closer(first: TypedTokenModel) -> LambdaCloser {
    if is_boundary(first, BoundaryType::BraceOpen) {
        LambdaCloser::BraceCloser(0)
    } else if is_boundary(first, BoundaryType::ParenthesisOpen) {
        LambdaCloser::SemiColonCloser(0)
    } else {
        LambdaCloser::SemiColonCloser(1)
    }
}

/// The count of a closer.
pub open spec fn closer_count(c: LambdaCloser) -> int {
    match c {
        LambdaCloser::BraceCloser(n) => n as int,
        LambdaCloser::SemiColonCloser(n) => n as int,
    }
}

/// The closer after reading `t`: a brace closer counts braces, a semicolon closer
/// parentheses.
pub open spec fn closer_update(c: LambdaCloser, t: TypedTokenModel) -> LambdaCloser {
    match c {
        LambdaCloser::BraceCloser(n) => if is_boundary(t, BoundaryType::BraceClosed) {
            LambdaCloser::BraceCloser((n - 1) as i64)
        } else if is_boundary(t, BoundaryType::BraceOpen) {
            LambdaCloser::BraceCloser((n + 1) as i64)
        } else {
            c
        },
        LambdaCloser::SemiColonCloser(n) => if is_boundary(t, BoundaryType::BraceClosed)
            || is_boundary(t, BoundaryType::BraceOpen) {
            c
        } else if is_boundary(t, BoundaryType::ParenthesisClosed) {
            LambdaCloser::SemiColonCloser((n - 1) as i64)
        } else if is_boundary(t, BoundaryType::ParenthesisOpen) {
            LambdaCloser::SemiColonCloser((n + 1) as i64)
        } else {
            c
        },
    }
}

/// Reads a lambda body: `next` is the token in hand, `c` the closer. The result is the
/// tokens of the body before the one that ends it, that token, the closer at that point,
/// and what follows. `None` where the tokens run out first.
pub open spec fn lambda_body(c: LambdaCloser, next: TypedTokenModel, rest: Seq<TypedTokenModel>) -> Option<
    (Seq<TypedTokenModel>, TypedTokenModel, LambdaCloser, Seq<TypedTokenModel>),
>
    decreases rest.len(),
{
    if spec_should_break(c, next.token) {
        Some((Seq::empty(), next, c, rest))
    } else if rest.len() == 0 {
        None
    } else {
        match lambda_body(closer_update(c, rest[0]), rest[0], rest.drop_first()) {
            None => None,
            Some((ins, b, cf, after)) => Some((seq![next] + ins, b, cf, after)),
        }
    }
}

/// A token made afresh: its text, line, role, scope and globality, with empty typing.
pub open spec fn fresh_token(text: Seq<char>, line: u32, vocab: CompileVocab, scope: i32, global: bool) -> TypedTokenModel {
    TypedTokenModel {
        token: text,
        line_number: line,
        symbols: text.map_values(|c: char| bare_symbol(c)),
        lang_type: vocab,
        scope: scope,
        typing: seq![Seq::<LeBlancType>::empty(), Seq::<LeBlancType>::empty()],
        global: global,
    }
}

/// The `flex` type token of a lifted lambda's header.
pub open spec fn flex_token() -> TypedTokenModel {
    fresh_token("flex"@, 0, CompileVocab::TYPE(LeBlancType::Flex), 0, true)
}

/// The parameter list of a lifted lambda: each argument typed `flex`, separated by commas.
pub open spec fn lambda_param_list(args: Seq<TypedTokenModel>) -> Seq<TypedTokenModel>
    decreases args.len(),
{
    if args.len() == 0 {
        Seq::empty()
    } else {
        let sep = if args.len() > 1 {
            seq![fresh_token(","@, 0, CompileVocab::BOUNDARY(BoundaryType::Comma), 0, true)]
        } else {
            Seq::empty()
        };
        lambda_param_list(args.drop_last()) + sep + seq![flex_token(), args.last()]
    }
}

/// The function that a lambda is lifted to: `func <name>(flex a, ...) returns flex { body }`.
pub open spec fn lambda_function(name: Seq<char>, args: Seq<TypedTokenModel>, body: Seq<TypedTokenModel>) -> Seq<TypedTokenModel> {
    seq![
        fresh_token("func"@, 0, CompileVocab::KEYWORD(LBKeyword::Func), 0, true),
        fresh_token(name, 0, CompileVocab::FUNCTION(FunctionType::Header), 0, true),
        fresh_token("("@, 0, CompileVocab::BOUNDARY(BoundaryType::ParenthesisOpen), 0, true),
    ] + lambda_param_list(args) + seq![
        fresh_token(")"@, 0, CompileVocab::BOUNDARY(BoundaryType::ParenthesisClosed), 0, true),
        fresh_token("returns"@, 0, CompileVocab::KEYWORD(LBKeyword::Returns), 0, true),
        flex_token(),
        fresh_token("{"@, 0, CompileVocab::BOUNDARY(BoundaryType::BraceOpen), 0, true),
    ] + body + seq![fresh_token("}"@, 0, CompileVocab::BOUNDARY(BoundaryType::BraceClosed), 0, false)]
}

pub proof fn lemma_lambda_args_len(rest: Seq<TypedTokenModel>)
    ensures
        lambda_args(rest) matches Some((a, m, after)) ==> after.len() < rest.len(),
    decreases rest.len(),
{
    if rest.len() > 0 && !is_lambda_marker(rest[0]) {
        lemma_lambda_args_len(rest.drop_first());
    }
}

pub proof fn lemma_lambda_body_len(c: LambdaCloser, next: TypedTokenModel, rest: Seq<TypedTokenModel>)
    ensures
        lambda_body(c, next, rest) matches Some((ins, b, cf, after)) ==> after.len() <= rest.len(),
    decreases rest.len(),
{
    if !spec_should_break(c, next.token) && rest.len() > 0 {
        lemma_lambda_body_len(closer_update(c, rest[0]), rest[0], rest.drop_first());
    }
}

/// Lifts the lambdas of a token stream: `out` is what has been read, `app` the functions
/// lifted so far, `rest` what is left and `hs` the names of the functions still to be
/// lifted, one per lambda. A lambda stays as its opening marker followed by a reference to
/// its function; the token that ended its body is read again; the function is appended
/// after the stream. `None` where a lambda is not closed.
pub open spec fn anno_run(
    out: Seq<TypedTokenModel>,
    app: Seq<TypedTokenModel>,
    rest: Seq<TypedTokenModel>,
    hs: Seq<usize>,
) -> Option<Seq<TypedTokenModel>>
    decreases rest.len(),
{
    if rest.len() == 0 {
        Some(out + app)
    } else if !is_lambda_marker(rest[0]) {
        anno_run(out.push(rest[0]), app, rest.drop_first(), hs)
    } else {
        match lambda_args(rest.drop_first()) {
            None => None,
            Some((args, closing, after_args)) => if after_args.len() == 0 {
                None
            } else {
                match lambda_body(
                    initial_closer(after_args[0]),
                    after_args[0],
                    after_args.drop_first(),
                ) {
                    None => None,
                    Some((ins, brk, cf, after)) => {
                        let line = rest[0].line_number;
                        let last = if cf == LambdaCloser::SemiColonCloser(0) {
                            fresh_token(
                                ";"@,
                                line,
                                CompileVocab::BOUNDARY(BoundaryType::Semicolon),
                                closing.scope,
                                closing.global,
                            )
                        } else {
                            brk
                        };
                        let name = decimal(hs[0] as nat);
                        let fref = fresh_token(
                            name,
                            line,
                            CompileVocab::FUNCTION(FunctionType::Reference),
                            closing.scope,
                            closing.global,
                        );
                        proof {
                            lemma_lambda_args_len(rest.drop_first());
                            lemma_lambda_body_len(
                                initial_closer(after_args[0]),
                                after_args[0],
                                after_args.drop_first(),
                            );
                        }
                        anno_run(
                            out.push(rest[0]).push(fref),
                            app + lambda_function(name, args, ins.push(last)),
                            seq![brk] + after,
                            hs.drop_first(),
                        )
                    },
                }
            },
        }
    }
}

/// Every lambda of the stream is closed: its argument list by a marker, its body by the
/// token its closer waits for.
pub open spec fn lambdas_closed(s: Seq<TypedTokenModel>) -> bool {
    anno_run(Seq::empty(), Seq::empty(), s, Seq::empty()) is Some
}

/// Whether lifting succeeds does not depend on what was read before, nor on the names
/// the lifted functions get.
pub proof fn lifting_success_ignores_names(
    out1: Seq<TypedTokenModel>,
    app1: Seq<TypedTokenModel>,
    out2: Seq<TypedTokenModel>,
    app2: Seq<TypedTokenModel>,
    rest: Seq<TypedTokenModel>,
    h1: Seq<usize>,
    h2: Seq<usize>,
)
    ensures
        (anno_run(out1, app1, rest, h1) is Some) == (anno_run(out2, app2, rest, h2) is Some),
    decreases rest.len(),
{
    if rest.len() == 0 {
    } else if !is_lambda_marker(rest[0]) {
        lifting_success_ignores_names(out1.push(rest[0]), app1, out2.push(rest[0]), app2, rest.drop_first(), h1, h2);
    } else {
        lemma_lambda_args_len(rest.drop_first());
        match lambda_args(rest.drop_first()) {
            None => {},
            Some((args, closing, after_args)) => if after_args.len() > 0 {
                lemma_lambda_body_len(
                    initial_closer(after_args[0]),
                    after_args[0],
                    after_args.drop_first(),
                );
                match lambda_body(
                    initial_closer(after_args[0]),
                    after_args[0],
                    after_args.drop_first(),
                ) {
                    None => {},
                    Some((ins, brk, cf, after)) => {
                        let line = rest[0].line_number;
                        let last = if cf == LambdaCloser::SemiColonCloser(0) {
                            fresh_token(
                                ";"@,
                                line,
                                CompileVocab::BOUNDARY(BoundaryType::Semicolon),
                                closing.scope,
                                closing.global,
                            )
                        } else {
                            brk
                        };
                        let n1 = decimal(h1[0] as nat);
                        let n2 = decimal(h2[0] as nat);
                        let f1 = fresh_token(n1, line, CompileVocab::FUNCTION(FunctionType::Reference), closing.scope, closing.global);
                        let f2 = fresh_token(n2, line, CompileVocab::FUNCTION(FunctionType::Reference), closing.scope, closing.global);
                        lifting_success_ignores_names(
                            out1.push(rest[0]).push(f1),
                            app1 + lambda_function(n1, args, ins.push(last)),
                            out2.push(rest[0]).push(f2),
                            app2 + lambda_function(n2, args, ins.push(last)),
                            seq![brk] + after,
                            h1.drop_first(),
                            h2.drop_first(),
                        );
                    },
                }
            },
        }
    }
}


/// The lifting step at a lambda, spelled out.
proof fn lemma_anno_lambda_step(
    out: Seq<TypedTokenModel>,
    app: Seq<TypedTokenModel>,
    rest: Seq<TypedTokenModel>,
    y: Seq<usize>,
)
    requires
        rest.len() > 0,
        is_lambda_marker(rest[0]),
        anno_run(out, app, rest, Seq::empty()) is Some,
    ensures
        lambda_args(rest.drop_first()) is Some,
        lambda_args(rest.drop_first()).unwrap().2.len() > 0,
        ({
            let (args, closing, aa) = lambda_args(rest.drop_first()).unwrap();
            &&& lambda_body(initial_closer(aa[0]), aa[0], aa.drop_first()) is Some
            &&& {
                let (ins, brk, cf, after) = lambda_body(
                    initial_closer(aa[0]),
                    aa[0],
                    aa.drop_first(),
                ).unwrap();
                let line = rest[0].line_number;
                let last = if cf == LambdaCloser::SemiColonCloser(0) {
                    fresh_token(
                        ";"@,
                        line,
                        CompileVocab::BOUNDARY(BoundaryType::Semicolon),
                        closing.scope,
                        closing.global,
                    )
                } else {
                    brk
                };
                let name = decimal(y[0] as nat);
                let fref = fresh_token(
                    name,
                    line,
                    CompileVocab::FUNCTION(FunctionType::Reference),
                    closing.scope,
                    closing.global,
                );
                &&& after.len() + 3 <= rest.len()
                &&& anno_run(out, app, rest, y) == anno_run(
                    out.push(rest[0]).push(fref),
                    app + lambda_function(name, args, ins.push(last)),
                    seq![brk] + after,
                    y.drop_first(),
                )
            }
        }),
{
    lemma_lambda_args_len(rest.drop_first());
    let (args, closing, aa) = lambda_args(rest.drop_first()).unwrap();
    lemma_lambda_body_len(initial_closer(aa[0]), aa[0], aa.drop_first());
}

proof fn lemma_view_insert(s: Seq<TypedToken>, i: int, x: TypedToken)
    requires
        0 <= i <= s.len(),
    ensures
        tokens_view(s.insert(i, x)) == tokens_view(s).insert(i, x@),
{
    assert(tokens_view(s.insert(i, x)) =~= tokens_view(s).insert(i, x@));
}

/// A fresh typed token of the given text, line, role, scope and globality.
fn make_token(text: &str, line: u32, vocab: CompileVocab, scope: i32, global: bool) -> (r: TypedToken)
    ensures
        r@ == fresh_token(text@, line, vocab, scope, global),
{
    let mut base = Token::from_string(String::from_str(text));
    base.set_line_number(line);
    TypedToken::new(base, vocab, scope, global)
}

/// Calls `fxhash::hash` on the body of a lambda, to name the function it is lifted to.
/// The hash is a machine word that differs between 32- and 64-bit targets, so nothing is
/// stated of it.
#[verifier::external_body]
fn hash_tokens(tokens: &Vec<TypedToken>) -> (r: usize) {
    fxhash::hash(tokens)
}

/// Removes the argument list of a lambda that starts at position `i`, up to and with its
/// closing marker; returns the arguments without their commas, and the closing marker.
fn take_lambda_args(tokens: &mut Vec<TypedToken>, i: usize) -> (r: (Vec<TypedToken>, TypedToken))
    requires
        i <= old(tokens).len(),
        lambda_args(tokens_view(old(tokens)@).skip(i as int)) is Some,
    ensures
        ({
            let (a, m, after) = lambda_args(tokens_view(old(tokens)@).skip(i as int)).unwrap();
            &&& tokens_view(r.0@) == a
            &&& r.1@ == m
            &&& tokens_view(final(tokens)@) == tokens_view(old(tokens)@).take(i as int) + after
        }),
{
    let ghost orig = tokens_view(tokens@);
    let mut args: Vec<TypedToken> = Vec::new();
    loop
        invariant
            i <= tokens.len(),
            orig == tokens_view(old(tokens)@),
            tokens_view(tokens@).take(i as int) == orig.take(i as int),
            lambda_args(tokens_view(tokens@).skip(i as int)) is Some,
            lambda_args(orig.skip(i as int)) == (match lambda_args(tokens_view(tokens@).skip(i as int)) {
                Some((a, m, after)) => Some((tokens_view(args@) + a, m, after)),
                None => None,
            }),
        decreases tokens.len(),
    {
        let ghost cur = tokens_view(tokens@);
        let t = tokens.remove(i);
        assert(tokens_view(tokens@).take(i as int) =~= cur.take(i as int));
        assert(tokens_view(tokens@).skip(i as int) =~= cur.skip(i as int).drop_first());
        assert(cur.skip(i as int)[0] == t@);
        if t.lang_type() == CompileVocab::SPECIAL(Specials::LambdaMarker, 120) {
            assert(lambda_args(cur.skip(i as int)) == Some(
                (Seq::<TypedTokenModel>::empty(), t@, cur.skip(i as int).drop_first()),
            ));
            assert(tokens_view(args@) + Seq::<TypedTokenModel>::empty() =~= tokens_view(args@));
            assert(tokens_view(tokens@) =~= orig.take(i as int) + cur.skip(i as int).drop_first());
            return (args, t);
        }
        if t.lang_type() != CompileVocab::BOUNDARY(BoundaryType::Comma) {
            let ghost before = tokens_view(args@);
            args.push(t);
            proof {
                let (a, m, after) = lambda_args(tokens_view(tokens@).skip(i as int)).unwrap();
                assert(tokens_view(args@) =~= before.push(t@));
                assert(before + (seq![t@] + a) =~= tokens_view(args@) + a);
            }
        }
    }
}

/// Updates a closer by the token just read.
fn update_closer(c: LambdaCloser, t: &TypedToken) -> (r: LambdaCloser)
    requires
        i64::MIN < closer_count(c) < i64::MAX,
    ensures
        r == closer_update(c, t@),
{
    let lt = t.lang_type();
    match c {
        LambdaCloser::BraceCloser(n) => if lt == CompileVocab::BOUNDARY(BoundaryType::BraceClosed) {
            LambdaCloser::BraceCloser(n - 1)
        } else if lt == CompileVocab::BOUNDARY(BoundaryType::BraceOpen) {
            LambdaCloser::BraceCloser(n + 1)
        } else {
            c
        },
        LambdaCloser::SemiColonCloser(n) => if lt == CompileVocab::BOUNDARY(BoundaryType::BraceClosed)
            || lt == CompileVocab::BOUNDARY(BoundaryType::BraceOpen) {
            c
        } else if lt == CompileVocab::BOUNDARY(BoundaryType::ParenthesisClosed) {
            LambdaCloser::SemiColonCloser(n - 1)
        } else if lt == CompileVocab::BOUNDARY(BoundaryType::ParenthesisOpen) {
            LambdaCloser::SemiColonCloser(n + 1)
        } else {
            c
        },
    }
}

/// The closer for a lambda body whose first token is `first`.
fn closer_for(first: &TypedToken) -> (r: LambdaCloser)
    ensures
        r == initial_closer(first@),
{
    let mut closer = LambdaCloser::SemiColonCloser(1);
    if first.lang_type() == CompileVocab::BOUNDARY(BoundaryType::BraceOpen) {
        closer = LambdaCloser::BraceCloser(0);
    }
    if first.lang_type() == CompileVocab::BOUNDARY(BoundaryType::ParenthesisOpen) {
        closer = LambdaCloser::SemiColonCloser(0);
    }
    closer
}

/// Removes the body of a lambda from position `i` on, `first` being its first token, up to
/// the token that ends it; returns the tokens before that one, that token, and the closer.
fn take_lambda_body(tokens: &mut Vec<TypedToken>, i: usize, first: TypedToken) -> (r: (
    Vec<TypedToken>,
    TypedToken,
    LambdaCloser,
))
    requires
        1 <= i <= old(tokens).len(),
        old(tokens).len() < i64::MAX,
        lambda_body(initial_closer(first@), first@, tokens_view(old(tokens)@).skip(i as int)) is Some,
    ensures
        ({
            let (ins, b, cf, after) = lambda_body(
                initial_closer(first@),
                first@,
                tokens_view(old(tokens)@).skip(i as int),
            ).unwrap();
            &&& tokens_view(r.0@) == ins
            &&& r.1@ == b
            &&& r.2 == cf
            &&& tokens_view(final(tokens)@) == tokens_view(old(tokens)@).take(i as int) + after
        }),
{
    let ghost orig = tokens_view(tokens@);
    let ghost n0 = tokens.len();
    let ghost c0 = initial_closer(first@);
    let ghost f0 = first@;
    let mut closer = closer_for(&first);
    let mut next = first;
    let mut instructs: Vec<TypedToken> = Vec::new();
    while !closer.should_break(next.as_string())
        invariant
            1 <= i <= tokens.len() <= n0,
            n0 < i64::MAX,
            orig == tokens_view(old(tokens)@),
            c0 == initial_closer(first@),
            f0 == first@,
            -(n0 - tokens.len() + 1) <= closer_count(closer) <= n0 - tokens.len() + 1,
            tokens_view(tokens@).take(i as int) == orig.take(i as int),
            lambda_body(closer, next@, tokens_view(tokens@).skip(i as int)) is Some,
            lambda_body(c0, f0, orig.skip(i as int)) == (match lambda_body(
                closer,
                next@,
                tokens_view(tokens@).skip(i as int),
            ) {
                Some((ins, b, cf, after)) => Some((tokens_view(instructs@) + ins, b, cf, after)),
                None => None,
            }),
        decreases tokens.len(),
    {
        let ghost cur = tokens_view(tokens@);
        let ghost before = tokens_view(instructs@);
        let ghost prev = next@;
        instructs.push(next);
        next = tokens.remove(i);
        closer = update_closer(closer, &next);
        proof {
            assert(tokens_view(tokens@).take(i as int) =~= cur.take(i as int));
            assert(tokens_view(tokens@).skip(i as int) =~= cur.skip(i as int).drop_first());
            assert(tokens_view(instructs@) =~= before.push(prev));
            let (ins, b, cf, after) = lambda_body(closer, next@, tokens_view(tokens@).skip(i as int)).unwrap();
            assert(before + (seq![prev] + ins) =~= tokens_view(instructs@) + ins);
        }
    }
    proof {
        assert(tokens_view(instructs@) + Seq::<TypedTokenModel>::empty() =~= tokens_view(instructs@));
    }
    (instructs, next, closer)
}

/// Appends the function that a lambda is lifted to.
fn append_lambda_function(
    app: &mut Vec<TypedToken>,
    name: &str,
    args: &Vec<TypedToken>,
    body: &mut Vec<TypedToken>,
)
    ensures
        tokens_view(final(app)@) == tokens_view(old(app)@) + lambda_function(
            name@,
            tokens_view(args@),
            tokens_view(old(body)@),
        ),
{
    let ghost a0 = tokens_view(app@);
    app.push(make_token("func", 0, CompileVocab::KEYWORD(LBKeyword::Func), 0, true));
    app.push(make_token(name, 0, CompileVocab::FUNCTION(FunctionType::Header), 0, true));
    app.push(make_token("(", 0, CompileVocab::BOUNDARY(BoundaryType::ParenthesisOpen), 0, true));
    let ghost a1 = tokens_view(app@);
    let mut k: usize = 0;
    while k < args.len()
        invariant
            k <= args.len(),
            tokens_view(app@) == a1 + lambda_param_list(tokens_view(args@).take(k as int)),
        decreases args.len() - k,
    {
        let ghost pre = tokens_view(app@);
        let ghost ta = tokens_view(args@).take(k + 1);
        let ghost sep: Seq<TypedTokenModel> = if k > 0 {
            seq![fresh_token(","@, 0, CompileVocab::BOUNDARY(BoundaryType::Comma), 0, true)]
        } else {
            Seq::empty()
        };
        if k > 0 {
            app.push(make_token(",", 0, CompileVocab::BOUNDARY(BoundaryType::Comma), 0, true));
        }
        assert(tokens_view(app@) =~= pre + sep);
        app.push(make_token("flex", 0, CompileVocab::TYPE(LeBlancType::Flex), 0, true));
        app.push(args[k].clone());
        proof {
            assert(ta.drop_last() =~= tokens_view(args@).take(k as int));
            assert(ta.last() == args@[k as int]@);
            assert(lambda_param_list(ta) == lambda_param_list(ta.drop_last()) + sep + seq![
                flex_token(),
                ta.last(),
            ]);
            assert(tokens_view(app@) =~= pre + sep + seq![flex_token(), ta.last()]);
            assert(tokens_view(app@) =~= a1 + lambda_param_list(ta));
        }
        k = k + 1;
    }
    assert(tokens_view(args@).take(args.len() as int) =~= tokens_view(args@));
    let ghost a2 = tokens_view(app@);
    let ghost lp = lambda_param_list(tokens_view(args@));
    assert(a2 == a1 + lp);
    app.push(make_token(")", 0, CompileVocab::BOUNDARY(BoundaryType::ParenthesisClosed), 0, true));
    app.push(make_token("returns", 0, CompileVocab::KEYWORD(LBKeyword::Returns), 0, true));
    app.push(make_token("flex", 0, CompileVocab::TYPE(LeBlancType::Flex), 0, true));
    app.push(make_token("{", 0, CompileVocab::BOUNDARY(BoundaryType::BraceOpen), 0, true));
    let ghost b0 = tokens_view(body@);
    let ghost p0 = tokens_view(app@);
    assert(p0 =~= a2 + seq![
        fresh_token(")"@, 0, CompileVocab::BOUNDARY(BoundaryType::ParenthesisClosed), 0, true),
        fresh_token("returns"@, 0, CompileVocab::KEYWORD(LBKeyword::Returns), 0, true),
        flex_token(),
        fresh_token("{"@, 0, CompileVocab::BOUNDARY(BoundaryType::BraceOpen), 0, true),
    ]);
    assert(a1 =~= a0 + seq![
        fresh_token("func"@, 0, CompileVocab::KEYWORD(LBKeyword::Func), 0, true),
        fresh_token(name@, 0, CompileVocab::FUNCTION(FunctionType::Header), 0, true),
        fresh_token("("@, 0, CompileVocab::BOUNDARY(BoundaryType::ParenthesisOpen), 0, true),
    ]);
    app.append(body);
    assert(tokens_view(app@) =~= p0 + b0);
    app.push(make_token("}", 0, CompileVocab::BOUNDARY(BoundaryType::BraceClosed), 0, false));
    let ghost head = seq![
        fresh_token("func"@, 0, CompileVocab::KEYWORD(LBKeyword::Func), 0, true),
        fresh_token(name@, 0, CompileVocab::FUNCTION(FunctionType::Header), 0, true),
        fresh_token("("@, 0, CompileVocab::BOUNDARY(BoundaryType::ParenthesisOpen), 0, true),
    ];
    let ghost mid = seq![
        fresh_token(")"@, 0, CompileVocab::BOUNDARY(BoundaryType::ParenthesisClosed), 0, true),
        fresh_token("returns"@, 0, CompileVocab::KEYWORD(LBKeyword::Returns), 0, true),
        flex_token(),
        fresh_token("{"@, 0, CompileVocab::BOUNDARY(BoundaryType::BraceOpen), 0, true),
    ];
    let ghost tail = seq![fresh_token("}"@, 0, CompileVocab::BOUNDARY(BoundaryType::BraceClosed), 0, false)];
    assert(lambda_function(name@, tokens_view(args@), b0) == head + lp + mid + b0 + tail);
    assert(tokens_view(app@) =~= p0 + b0 + tail);
    assert(a0 + (head + lp + mid + b0 + tail) =~= (((a0 + head) + lp) + mid) + b0 + tail);
    assert(tokens_view(app@) =~= a0 + lambda_function(name@, tokens_view(args@), b0));
}


/// Lifts the lambda whose opening marker stands at position `i`: the stream keeps the
/// marker, a reference to the lifted function, and the token that ended the body; the
/// function goes to `final_appends`. Returns the hash that names the function.
#[verifier::rlimit(30)]
fn lift_lambda(typed_tokens: &mut Vec<TypedToken>, final_appends: &mut Vec<TypedToken>, i: usize) -> (h: usize)
    requires
        i < old(typed_tokens).len() < i64::MAX,
        is_lambda_marker(tokens_view(old(typed_tokens)@)[i as int]),
        anno_run(
            tokens_view(old(typed_tokens)@).take(i as int),
            tokens_view(old(final_appends)@),
            tokens_view(old(typed_tokens)@).skip(i as int),
            Seq::empty(),
        ) is Some,
    ensures
        i + 2 <= final(typed_tokens).len() <= old(typed_tokens).len(),
        forall|x: Seq<usize>|
            anno_run(
                tokens_view(old(typed_tokens)@).take(i as int),
                tokens_view(old(final_appends)@),
                tokens_view(old(typed_tokens)@).skip(i as int),
                seq![h] + x,
            ) == anno_run(
                tokens_view(final(typed_tokens)@).take(i + 2),
                tokens_view(final(final_appends)@),
                tokens_view(final(typed_tokens)@).skip(i + 2),
                x,
            ),
{
    let ghost v = tokens_view(typed_tokens@);
    let ghost app0 = tokens_view(final_appends@);
    let ghost out = v.take(i as int);
    let ghost rest = v.skip(i as int);
    assert(rest[0] == v[i as int]);
    proof {
        lemma_anno_lambda_step(out, app0, rest, Seq::empty());
    }
    let line_number = typed_tokens[i].token().line_number();
    let i = i + 1;
    assert(v.skip(i as int) =~= rest.drop_first());
    let (lambda_arg_tokens, closing) = take_lambda_args(typed_tokens, i);
    let ghost after_args = lambda_args(rest.drop_first()).unwrap().2;
    let ghost t1 = tokens_view(typed_tokens@);
    proof {
        lemma_lambda_args_len(rest.drop_first());
        assert(t1 == v.take(i as int) + after_args);
        assert(t1.skip(i as int) =~= after_args);
        assert(t1.take(i as int) =~= v.take(i as int));
    }
    let first = typed_tokens.remove(i);
    assert(tokens_view(typed_tokens@) =~= t1.remove(i as int));
    assert(tokens_view(typed_tokens@).skip(i as int) =~= after_args.drop_first());
    assert(tokens_view(typed_tokens@).take(i as int) =~= v.take(i as int));
    let ghost fv = first@;
    assert(fv == after_args[0]);
    let (mut instructs, brk, closer) = take_lambda_body(typed_tokens, i, first);
    let ghost after = lambda_body(
        initial_closer(after_args[0]),
        after_args[0],
        after_args.drop_first(),
    ).unwrap().3;
    let ghost t3 = tokens_view(typed_tokens@);
    assert(t3 == v.take(i as int) + after);
    assert(t3.len() >= i);
    let semicolon_token = make_token(
        ";",
        line_number,
        CompileVocab::BOUNDARY(BoundaryType::Semicolon),
        closing.scope(),
        closing.global(),
    );
    let brk_copy = brk.clone();
    let ghost bv = brk@;
    let ghost raw3 = typed_tokens@;
    typed_tokens.insert(i, brk_copy);
    proof {
        lemma_view_insert(raw3, i as int, brk_copy);
        assert((v.take(i as int) + after).insert(i as int, bv) =~= v.take(i as int) + (seq![bv] + after));
    }
    let ghost t4 = tokens_view(typed_tokens@);
    assert(t4 =~= v.take(i as int) + (seq![bv] + after));
    let last = if closer == LambdaCloser::SemiColonCloser(0) {
        semicolon_token
    } else {
        brk
    };
    let ghost lv = last@;
    instructs.push(last);
    let ghost iv = tokens_view(instructs@);
    let h = hash_tokens(&instructs);
    let name = usize_to_string(h);
    let func_ref = make_token(
        name.as_str(),
        line_number,
        CompileVocab::FUNCTION(FunctionType::Reference),
        closing.scope(),
        closing.global(),
    );
    let ghost fr = func_ref@;
    let ghost raw4 = typed_tokens@;
    typed_tokens.insert(i, func_ref);
    proof {
        lemma_view_insert(raw4, i as int, func_ref);
        assert((v.take(i as int) + (seq![bv] + after)).insert(i as int, fr) =~= v.take(i as int) + (seq![fr] + (seq![bv] + after)));
    }
    assert(tokens_view(typed_tokens@) =~= v.take(i as int) + (seq![fr] + (seq![bv] + after)));
    append_lambda_function(final_appends, name.as_str(), &lambda_arg_tokens, &mut instructs);
    proof {
        lemma_anno_lambda_step(out, app0, rest, seq![h]);
        let (args, cl, aa) = lambda_args(rest.drop_first()).unwrap();
        let (ins, b, cf, af) = lambda_body(initial_closer(aa[0]), aa[0], aa.drop_first()).unwrap();
        let nv = tokens_view(typed_tokens@);
        assert(v.take(i as int) =~= out.push(rest[0]));
        assert(nv.take(i + 1) =~= out.push(rest[0]).push(fr));
        assert(nv.skip(i + 1) =~= seq![b] + af);
        assert(iv == ins.push(lv));
        assert(tokens_view(final_appends@) == app0 + lambda_function(decimal(h as nat), args, iv));
        assert forall|x: Seq<usize>|
            anno_run(out, app0, rest, seq![h] + x) == anno_run(
                nv.take(i + 1),
                tokens_view(final_appends@),
                nv.skip(i + 1),
                x,
            ) by {
            let y = seq![h] + x;
            assert(y[0] == h);
            assert(y.drop_first() =~= x);
            lemma_anno_lambda_step(out, app0, rest, y);
        }
    }
    h
}

/// Lifts every lambda of the stream to a function of its own. The lambda's arguments and
/// body leave the stream; its opening marker stays, followed by a reference to the new
/// function, whose name is the decimal hash of the lifted body; the token that ended the
/// body stays after the reference. The functions are appended after the stream, in the
/// order of their lambdas.
pub fn create_anno_functions(typed_tokens: &mut Vec<TypedToken>, errors: &mut Vec<ErrorStub>)
    requires
        old(typed_tokens).len() < i64::MAX,
        lambdas_closed(tokens_view(old(typed_tokens)@)),
    ensures
        exists|hs: Seq<usize>|
            anno_run(Seq::empty(), Seq::empty(), tokens_view(old(typed_tokens)@), hs) == Some(
                tokens_view(final(typed_tokens)@),
            ),
        final(errors)@ == old(errors)@,
{
    let ghost s0 = tokens_view(typed_tokens@);
    let ghost n0 = typed_tokens.len();
    let ghost mut hs: Seq<usize> = Seq::empty();
    let mut final_appends: Vec<TypedToken> = Vec::new();
    let mut i: usize = 0;
    proof {
        assert forall|x: Seq<usize>|
            anno_run(
                tokens_view(typed_tokens@).take(0),
                tokens_view(final_appends@),
                tokens_view(typed_tokens@).skip(0),
                x,
            ) == anno_run(Seq::empty(), Seq::empty(), s0, hs + x) by {
            assert(tokens_view(typed_tokens@).take(0) =~= Seq::<TypedTokenModel>::empty());
            assert(tokens_view(final_appends@) =~= Seq::<TypedTokenModel>::empty());
            assert(tokens_view(typed_tokens@).skip(0) =~= s0);
            assert(hs + x =~= x);
        }
        assert(tokens_view(typed_tokens@).take(0) =~= Seq::<TypedTokenModel>::empty());
        assert(tokens_view(final_appends@) =~= Seq::<TypedTokenModel>::empty());
        assert(tokens_view(typed_tokens@).skip(0) =~= s0);
    }
    while i < typed_tokens.len()
        invariant
            i <= typed_tokens.len() <= n0,
            n0 < i64::MAX,
            forall|x: Seq<usize>|
                #![trigger anno_run(
                    tokens_view(typed_tokens@).take(i as int),
                    tokens_view(final_appends@),
                    tokens_view(typed_tokens@).skip(i as int),
                    x,
                )]
                anno_run(
                    tokens_view(typed_tokens@).take(i as int),
                    tokens_view(final_appends@),
                    tokens_view(typed_tokens@).skip(i as int),
                    x,
                ) == anno_run(Seq::empty(), Seq::empty(), s0, hs + x),
            anno_run(
                tokens_view(typed_tokens@).take(i as int),
                tokens_view(final_appends@),
                tokens_view(typed_tokens@).skip(i as int),
                Seq::empty(),
            ) is Some,
        decreases typed_tokens.len() - i,
    {
        let ghost v = tokens_view(typed_tokens@);
        let ghost app0 = tokens_view(final_appends@);
        let ghost out = v.take(i as int);
        let ghost rest = v.skip(i as int);
        let ghost hs0 = hs;
        assert(rest[0] == v[i as int]);
        if typed_tokens[i].lang_type() == CompileVocab::SPECIAL(Specials::LambdaMarker, 120) {
            let h = lift_lambda(typed_tokens, &mut final_appends, i);
            proof {
                hs = hs.push(h);
                let nv = tokens_view(typed_tokens@);
                assert forall|x: Seq<usize>|
                    anno_run(
                        nv.take(i + 2),
                        tokens_view(final_appends@),
                        nv.skip(i + 2),
                        x,
                    ) == anno_run(Seq::empty(), Seq::empty(), s0, hs + x) by {
                    let y = seq![h] + x;
                    assert(hs0 + y =~= hs + x);
                    assert(anno_run(out, app0, rest, y) == anno_run(
                        Seq::empty(),
                        Seq::empty(),
                        s0,
                        hs0 + y,
                    ));
                }
                let y0 = seq![h];
                assert(y0 + Seq::<usize>::empty() =~= y0);
                lifting_success_ignores_names(out, app0, out, app0, rest, Seq::empty(), y0);
            }
            i = i + 1;
        } else {
            proof {
                let nv = tokens_view(typed_tokens@);
                assert(nv.take(i + 1) =~= out.push(rest[0]));
                assert(nv.skip(i + 1) =~= rest.drop_first());
                assert forall|x: Seq<usize>|
                    anno_run(nv.take(i + 1), app0, nv.skip(i + 1), x) == anno_run(
                        Seq::empty(),
                        Seq::empty(),
                        s0,
                        hs + x,
                    ) by {
                    assert(anno_run(out, app0, rest, x) == anno_run(
                        Seq::empty(),
                        Seq::empty(),
                        s0,
                        hs0 + x,
                    ));
                }
            }
        }
        i = i + 1;
    }
    let ghost v = tokens_view(typed_tokens@);
    let ghost app0 = tokens_view(final_appends@);
    typed_tokens.append(&mut final_appends);
    proof {
        assert(v.take(i as int) =~= v);
        assert(v.skip(i as int) =~= Seq::<TypedTokenModel>::empty());
        assert(hs + Seq::<usize>::empty() =~= hs);
        assert(anno_run(v, app0, Seq::empty(), Seq::empty()) == Some(v + app0));
        assert(tokens_view(typed_tokens@) =~= v + app0);
        assert(anno_run(Seq::empty(), Seq::empty(), s0, hs) == Some(tokens_view(typed_tokens@)));
    }
}


/// Every filed signature has an argument list and a return list.
pub open spec fn signatures_complete(m: Map<(Seq<char>, RoleClass), Seq<Seq<LeBlancType>>>) -> bool {
    forall|k: (Seq<char>, RoleClass)| m.contains_key(k) ==> (#[trigger] m[k]).len() >= 2
}

/// The function headers among imported trees carry an argument list and a return list.
pub open spec fn import_headers_typed(imports: Seq<TreeModel>) -> bool {
    forall|i: int|
        0 <= i < imports.len() && (#[trigger] root(imports[i])).lang_type == CompileVocab::FUNCTION(
            FunctionType::Header,
        ) ==> root(imports[i]).typing.len() >= 2
}

/// The matcher after filing the signature of every imported function header, in order.
pub open spec fn import_signatures(
    m: Map<(Seq<char>, RoleClass), Seq<Seq<LeBlancType>>>,
    imports: Seq<TreeModel>,
) -> Map<(Seq<char>, RoleClass), Seq<Seq<LeBlancType>>>
    decreases imports.len(),
{
    if imports.len() == 0 {
        m
    } else {
        let m2 = import_signatures(m, imports.drop_last());
        let t = root(imports.last());
        if t.lang_type == CompileVocab::FUNCTION(FunctionType::Header) {
            m2.insert(token_key(t), seq![t.typing[0], t.typing[1]])
        } else {
            m2
        }
    }
}

/// The key under which a token is looked up as a function: a name of unknown class is
/// looked up as a call.
pub open spec fn ref_key(t: TypedTokenModel) -> (Seq<char>, RoleClass) {
    if t.lang_type == CompileVocab::UNKNOWN(LeBlancType::Class(0)) {
        partial_key((t.token, CompileVocab::FUNCTION(FunctionType::Call)))
    } else {
        token_key(t)
    }
}

/// A token that names a known function gets that function's return types; a name of
/// unknown class that does becomes a function reference.
pub open spec fn resolve_ref(t: TypedTokenModel, m: Map<(Seq<char>, RoleClass), Seq<Seq<LeBlancType>>>) -> TypedTokenModel {
    if m.contains_key(ref_key(t)) {
        let t2 = with_returns(t, m[ref_key(t)][1]);
        if t.lang_type == CompileVocab::UNKNOWN(LeBlancType::Class(0)) {
            TypedTokenModel { lang_type: CompileVocab::FUNCTION(FunctionType::Reference), ..t2 }
        } else {
            t2
        }
    } else {
        t
    }
}

/// The scan of the function headers, after the names of unknown type are resolved.
pub open spec fn identified_headers(
    tokens: Seq<TypedTokenModel>,
    type_map: Map<Seq<char>, Seq<Seq<CompileVocab>>>,
    matcher: Map<(Seq<char>, RoleClass), Seq<Seq<LeBlancType>>>,
    errors: Seq<ErrorStubModel>,
) -> FnScan {
    let t1 = tokens.map_values(|t: TypedTokenModel| resolve_unknown(t, type_map));
    fn_scan(fn_scan_start(t1, matcher, errors), t1.len() as int)
}

/// The stream once function references are resolved against the declared and the
/// imported signatures.
pub open spec fn identified_refs(
    tokens: Seq<TypedTokenModel>,
    imports: Seq<TreeModel>,
    type_map: Map<Seq<char>, Seq<Seq<CompileVocab>>>,
    matcher: Map<(Seq<char>, RoleClass), Seq<Seq<LeBlancType>>>,
    errors: Seq<ErrorStubModel>,
) -> Seq<TypedTokenModel> {
    let st = identified_headers(tokens, type_map, matcher, errors);
    let m = import_signatures(st.matcher, imports);
    st.tokens.map_values(|t: TypedTokenModel| resolve_ref(t, m))
}

proof fn lemma_fn_scan_typed(start: FnScan, n: int)
    requires
        all_typed(start.tokens),
        signatures_complete(start.matcher),
        0 <= n <= start.tokens.len(),
        start.ndi == 0,
    ensures
        all_typed(fn_scan(start, n).tokens),
        signatures_complete(fn_scan(start, n).matcher),
        fn_scan(start, n).tokens.len() == start.tokens.len(),
        0 <= fn_scan(start, n).ndi <= n,
    decreases n,
{
    if n > 0 {
        lemma_fn_scan_typed(start, n - 1);
        let st = fn_scan(start, n - 1);
        let nx = fn_scan_step(st, n - 1);
        assert(nx.tokens.len() == st.tokens.len());
        assert(all_typed(nx.tokens)) by {
            assert forall|i: int| 0 <= i < nx.tokens.len() implies (#[trigger] nx.tokens[i]).typing.len() >= 2 by {
                assert(st.tokens[i].typing.len() >= 2);
            }
        }
        assert(signatures_complete(nx.matcher)) by {
            assert forall|k: (Seq<char>, RoleClass)| nx.matcher.contains_key(k) implies (#[trigger] nx.matcher[k]).len() >= 2 by {
                if st.matcher.contains_key(k) {
                    assert(st.matcher[k].len() >= 2);
                }
            }
        }
    }
}

proof fn lemma_resolve_unknown_typed(s: Seq<TypedTokenModel>, m: Map<Seq<char>, Seq<Seq<CompileVocab>>>)
    requires
        all_typed(s),
    ensures
        all_typed(s.map_values(|t: TypedTokenModel| resolve_unknown(t, m))),
{
    let r = s.map_values(|t: TypedTokenModel| resolve_unknown(t, m));
    assert forall|i: int| 0 <= i < r.len() implies (#[trigger] r[i]).typing.len() >= 2 by {
        assert(r[i] == resolve_unknown(s[i], m));
        assert(s[i].typing.len() >= 2);
    }
}

/// Files the signatures of the imported function headers.
fn file_import_signatures(import_tokens: &Vec<Node>, func_matcher: &mut FuncMatcher)
    requires
        old(func_matcher).wf(),
        signatures_complete(old(func_matcher)@),
        import_headers_typed(forest_model(import_tokens@)),
    ensures
        final(func_matcher).wf(),
        final(func_matcher)@ == import_signatures(old(func_matcher)@, forest_model(import_tokens@)),
        signatures_complete(final(func_matcher)@),
{
    let ghost m0 = func_matcher@;
    let ghost f = forest_model(import_tokens@);
    let mut k: usize = 0;
    while k < import_tokens.len()
        invariant
            k <= import_tokens.len(),
            f == forest_model(import_tokens@),
            import_headers_typed(f),
            func_matcher.wf(),
            func_matcher@ == import_signatures(m0, f.take(k as int)),
            signatures_complete(func_matcher@),
        decreases import_tokens.len() - k,
    {
        let token = &import_tokens[k].value;
        assert(f[k as int] == import_tokens@[k as int].model());
        assert(root(f[k as int]) == token@);
        assert(f.take(k + 1).drop_last() =~= f.take(k as int));
        assert(f.take(k + 1).last() == f[k as int]);
        if token.lang_type() == CompileVocab::FUNCTION(FunctionType::Header) {
            assert(token@.typing.len() >= 2);
            let typing = token.typing();
            let mut value: Vec<Vec<LeBlancType>> = Vec::new();
            value.push(copy_types(&typing[0]));
            value.push(copy_types(&typing[1]));
            assert(nested_view(value@) =~= seq![token@.typing[0], token@.typing[1]]);
            func_matcher.insert(token.as_partial(), value);
        }
        k = k + 1;
    }
    assert(f.take(k as int) =~= f);
}

/// Resolves the function references of a stream against the matcher.
fn resolve_refs(typed_tokens: Vec<TypedToken>, func_matcher: &FuncMatcher) -> (r: Vec<TypedToken>)
    requires
        func_matcher.wf(),
        signatures_complete(func_matcher@),
        all_typed(tokens_view(typed_tokens@)),
    ensures
        tokens_view(r@) == tokens_view(typed_tokens@).map_values(
            |t: TypedTokenModel| resolve_ref(t, func_matcher@),
        ),
{
    let ghost m = func_matcher@;
    let ghost s = tokens_view(typed_tokens@);
    let mut r: Vec<TypedToken> = Vec::new();
    let mut j: usize = 0;
    while j < typed_tokens.len()
        invariant
            j <= typed_tokens.len(),
            s == tokens_view(typed_tokens@),
            all_typed(s),
            func_matcher.wf(),
            signatures_complete(func_matcher@),
            tokens_view(r@) == s.take(j as int).map_values(|t: TypedTokenModel| resolve_ref(t, m)),
            m == func_matcher@,
        decreases typed_tokens.len() - j,
    {
        let mut token = typed_tokens[j].clone();
        let ghost tv = token@;
        assert(tv == s[j as int]);
        assert(tv.typing.len() >= 2);
        let mut partial_token = token.as_partial();
        let mut function_ref = false;
        if token.lang_type() == CompileVocab::UNKNOWN(LeBlancType::Class(0)) {
            partial_token.set_lang_type(CompileVocab::FUNCTION(FunctionType::Call));
            function_ref = true;
        }
        assert(partial_key(partial_token@) == ref_key(tv));
        match func_matcher.get(&partial_token) {
            Some(sig) => {
                assert(m[ref_key(tv)].len() >= 2);
                let return_types = copy_types(&sig[1]);
                token.set_typing_returns(return_types);
                if function_ref {
                    token.set_type(CompileVocab::FUNCTION(FunctionType::Reference));
                }
            },
            None => {},
        }
        assert(token@ == resolve_ref(tv, m));
        let ghost before = tokens_view(r@);
        r.push(token);
        assert(tokens_view(r@) =~= before.push(resolve_ref(tv, m)));
        assert(s.take(j + 1).map_values(|t: TypedTokenModel| resolve_ref(t, m)) =~= s.take(
            j as int,
        ).map_values(|t: TypedTokenModel| resolve_ref(t, m)).push(resolve_ref(tv, m)));
        j = j + 1;
    }
    assert(s.take(j as int) =~= s);
    r
}

/// The identification passes in order: names of unknown type are resolved against the
/// type map; function headers are read and filed; imported headers are filed;
/// references to known functions get their return types; lambdas are lifted to
/// functions; calls get their argument types; bracketed groups are nested.
pub fn identify(
    typed_tokens: Vec<TypedToken>,
    import_tokens: Vec<Node>,
    type_map: &mut TypeMap,
    func_matcher: FuncMatcher,
    errors: &mut Vec<ErrorStub>,
    mode: CompilationMode,
) -> (r: Vec<Node>)
    requires
        old(type_map).wf(),
        func_matcher.wf(),
        signatures_complete(func_matcher@),
        all_typed(tokens_view(typed_tokens@)),
        import_headers_typed(forest_model(import_tokens@)),
        typed_tokens@.len() < i64::MAX,
        lambdas_closed(
            identified_refs(
                tokens_view(typed_tokens@),
                forest_model(import_tokens@),
                old(type_map)@,
                func_matcher@,
                errors_view(old(errors)@),
            ),
        ),
        forall|hs: Seq<usize>|
            #[trigger] anno_run(
                Seq::empty(),
                Seq::empty(),
                identified_refs(
                    tokens_view(typed_tokens@),
                    forest_model(import_tokens@),
                    old(type_map)@,
                    func_matcher@,
                    errors_view(old(errors)@),
                ),
                hs,
            ) matches Some(t) ==> t.len() < i32::MAX && caller_args(t) is Some,
    ensures
        final(type_map).wf(),
        final(type_map)@ == old(type_map)@,
        errors_view(final(errors)@) == identified_headers(
            tokens_view(typed_tokens@),
            old(type_map)@,
            func_matcher@,
            errors_view(old(errors)@),
        ).errors,
        exists|hs: Seq<usize>|
            #[trigger] anno_run(
                Seq::empty(),
                Seq::empty(),
                identified_refs(
                    tokens_view(typed_tokens@),
                    forest_model(import_tokens@),
                    old(type_map)@,
                    func_matcher@,
                    errors_view(old(errors)@),
                ),
                hs,
            ) matches Some(t) && forest_model(r@) == ownership(
                caller_args(t)->0,
                mode == CompilationMode::StubFile,
            ),
{
    let ghost s0 = tokens_view(typed_tokens@);
    let ghost tm = type_map@;
    let ghost e0 = errors_view(errors@);
    let ghost m0 = func_matcher@;
    let mut typed_tokens = typed_tokens;
    let mut func_matcher = func_matcher;
    identify_unknown(&mut typed_tokens, type_map);
    proof {
        lemma_resolve_unknown_typed(s0, tm);
        lemma_fn_scan_typed(
            fn_scan_start(tokens_view(typed_tokens@), m0, e0),
            typed_tokens@.len() as int,
        );
    }
    identify_functions(&mut typed_tokens, &mut func_matcher, errors);
    file_import_signatures(&import_tokens, &mut func_matcher);
    let mut typed_tokens = resolve_refs(typed_tokens, &func_matcher);
    let ghost t3 = tokens_view(typed_tokens@);
    assert(t3 == identified_refs(s0, forest_model(import_tokens@), tm, m0, e0));
    create_anno_functions(&mut typed_tokens, errors);
    let ghost hs = choose|hs: Seq<usize>|
        anno_run(Seq::empty(), Seq::empty(), t3, hs) == Some(tokens_view(typed_tokens@));
    assert(anno_run(Seq::empty(), Seq::empty(), t3, hs) == Some(tokens_view(typed_tokens@)));
    let typed_tokens = identify_caller_function_args2(&mut typed_tokens, None);
    create_ownership(typed_tokens, mode)
}


proof fn lemma_flatten_push(f: Seq<TreeModel>, x: TreeModel)
    ensures
        flatten_forest(f.push(x)) == flatten_forest(f) + flatten_tree(x),
{
    assert(f.push(x).drop_last() =~= f);
}

proof fn lemma_flatten_add_child(t: TreeModel, c: TreeModel)
    ensures
        flatten_tree(add_child(t, c)) == flatten_tree(t) + flatten_tree(c),
{
    match t {
        TreeModel::Branch(v, cs) => {
            lemma_flatten_push(cs, c);
            assert(seq![v] + (flatten_forest(cs) + flatten_tree(c)) =~= (seq![v] + flatten_forest(cs))
                + flatten_tree(c));
        },
    }
}

proof fn lemma_flatten_leaf(t: TypedTokenModel)
    ensures
        flatten_tree(leaf(t)) == seq![t],
{
    assert(flatten_forest(Seq::<TreeModel>::empty()) == Seq::<TypedTokenModel>::empty());
    assert(seq![t] + Seq::<TypedTokenModel>::empty() =~= seq![t]);
}

/// The fold keeps every token read: the finished trees, then the open brackets, hold
/// the stream in order.
#[verifier::spinoff_prover]
#[verifier::rlimit(40)]
proof fn lemma_ownership_fold_keeps(s: Seq<TypedTokenModel>, stub: bool)
    ensures
        flatten_forest(ownership_fold(s, stub).nodes) + flatten_forest(ownership_fold(s, stub).parents) == s,
        (ownership_fold(s, stub).parent_type == BoundaryType::ParenthesisOpen || ownership_fold(
            s,
            stub,
        ).parent_type == BoundaryType::BracketOpen) ==> ownership_fold(s, stub).parents.len() > 0,
        stub ==> ownership_fold(s, stub).parents.len() == 0,
    decreases s.len(),
{
    if s.len() == 0 {
        assert(flatten_forest(Seq::<TreeModel>::empty()) == Seq::<TypedTokenModel>::empty());
        assert(Seq::<TypedTokenModel>::empty() + Seq::<TypedTokenModel>::empty() =~= s);
    } else {
        let pre = s.drop_last();
        let t = s.last();
        lemma_ownership_fold_keeps(pre, stub);
        let st = ownership_fold(pre, stub);
        let a = flatten_forest(st.nodes);
        let b = flatten_forest(st.parents);
        lemma_flatten_leaf(t);
        assert(s =~= pre.push(t));
        if stub {
            lemma_flatten_push(st.nodes, leaf(t));
            assert(a + seq![t] + b =~= pre.push(t));
        } else if t.lang_type == CompileVocab::BOUNDARY(BoundaryType::ParenthesisOpen) || t.lang_type
            == CompileVocab::BOUNDARY(BoundaryType::BracketOpen) {
            lemma_flatten_push(st.parents, leaf(t));
            assert(a + (b + seq![t]) =~= pre.push(t));
        } else if closes(st.parent_type, t) {
            let p = st.parents.last();
            let rest = st.parents.drop_last();
            assert(st.parents =~= rest.push(p));
            lemma_flatten_push(rest, p);
            if rest.len() > 0 {
                let r0 = rest.drop_last();
                let rl = rest.last();
                assert(rest =~= r0.push(rl));
                lemma_flatten_push(r0, rl);
                let top = add_child(add_child(rl, p), leaf(t));
                lemma_flatten_add_child(rl, p);
                lemma_flatten_add_child(add_child(rl, p), leaf(t));
                lemma_flatten_push(r0, top);
                assert(a + flatten_forest(r0.push(top)) =~= pre.push(t));
            } else {
                lemma_flatten_push(st.nodes, p);
                lemma_flatten_push(st.nodes.push(p), leaf(t));
                assert(flatten_forest(rest) == Seq::<TypedTokenModel>::empty());
                assert(flatten_forest(Seq::<TreeModel>::empty()) == Seq::<TypedTokenModel>::empty());
                assert(a + flatten_tree(p) + seq![t] + Seq::<TypedTokenModel>::empty() =~= pre.push(t));
            }
        } else if st.parents.len() > 0 {
            let p = st.parents.last();
            let rest = st.parents.drop_last();
            assert(st.parents =~= rest.push(p));
            lemma_flatten_push(rest, p);
            lemma_flatten_add_child(p, leaf(t));
            lemma_flatten_push(rest, add_child(p, leaf(t)));
            assert(a + flatten_forest(rest.push(add_child(p, leaf(t)))) =~= pre.push(t));
        } else {
            lemma_flatten_push(st.nodes, leaf(t));
            assert(flatten_forest(st.parents) == Seq::<TypedTokenModel>::empty());
            assert(a + seq![t] + b =~= pre.push(t));
        }
    }
}

/// Nesting keeps every token in its place: reading the trees back in pre-order gives the
/// stream again, wherever at most one bracket is left open at its end.
pub proof fn ownership_keeps_every_token(s: Seq<TypedTokenModel>, stub: bool)
    requires
        ownership_fold(s, stub).parents.len() <= 1,
    ensures
        flatten_forest(ownership(s, stub)) == s,
{
    lemma_ownership_fold_keeps(s, stub);
    let st = ownership_fold(s, stub);
    if st.parents.len() > 0 {
        lemma_flatten_push(st.nodes, st.parents.last());
        assert(st.parents =~= Seq::<TreeModel>::empty().push(st.parents.last()));
        lemma_flatten_push(Seq::<TreeModel>::empty(), st.parents.last());
        assert(flatten_forest(Seq::<TreeModel>::empty()) == Seq::<TypedTokenModel>::empty());
        assert(Seq::<TypedTokenModel>::empty() + flatten_tree(st.parents.last()) =~= flatten_tree(
            st.parents.last(),
        ));
    } else {
        assert(flatten_forest(st.parents) == Seq::<TypedTokenModel>::empty());
        assert(flatten_forest(st.nodes) + Seq::<TypedTokenModel>::empty() =~= flatten_forest(st.nodes));
    }
}


/// The first closing parenthesis at index `lo` or after.
pub open spec fn first_close_from(t: Seq<TypedTokenModel>, lo: int) -> Option<int>
    decreases t.len() - lo,
{
    if lo < 0 || lo >= t.len() {
        None
    } else if t[lo].lang_type == CompileVocab::BOUNDARY(BoundaryType::ParenthesisClosed) {
        Some(lo)
    } else {
        first_close_from(t, lo + 1)
    }
}

/// The index-shifting argument pass over the calls at positions `left..right` of a
/// stream of `n` tokens: the stream after it and the width `right - left` it returns.
/// `None` where the pass fails: an index runs past the stream or past the machine's
/// sizes, a nested call has no closing parenthesis after it, a token to type has no
/// typing lists, or the bounds are reversed.
pub open spec fn scan_call_args(n: int, t: Seq<TypedTokenModel>, left: int, right: int) -> Option<(Seq<TypedTokenModel>, nat)>
    decreases n - left, right - left + 1, 2int, 0int,
{
    if t.len() != n || right < left {
        None
    } else {
        match scan_calls_from(n, t, left, right, left, 0) {
            None => None,
            Some(t2) => Some((t2, (right - left) as nat)),
        }
    }
}

/// The outer loop of the pass: position `i0` of `left..right`, shifted by `i_add`.
pub open spec fn scan_calls_from(n: int, t: Seq<TypedTokenModel>, left: int, right: int, i0: int, i_add: nat) -> Option<Seq<TypedTokenModel>>
    decreases n - left, right - i0, 1int, 0int,
{
    if i0 >= right {
        Some(t)
    } else {
        let i = i0 + i_add;
        if i > usize::MAX {
            None
        } else if t.len() > i && is_call(t[i]) && n > i + 1 {
            scan_one_call(n, t, left, right, i0, i_add, i, i + 1, 0, true)
        } else {
            scan_calls_from(n, t, left, right, i0 + 1, i_add)
        }
    }
}

/// The inner loop of the pass: reading position `j0` (shifted by `j_add`) for the call
/// at `i`; `can` tells whether the next argument may still give a type.
pub open spec fn scan_one_call(
    n: int,
    t: Seq<TypedTokenModel>,
    left: int,
    right: int,
    i0: int,
    i_add: nat,
    i: int,
    j0: int,
    j_add: nat,
    can: bool,
) -> Option<Seq<TypedTokenModel>>
    decreases n - left, right - i0, 0int, n - j0,
{
    if i0 >= right || t.len() != n {
        None
    } else if j0 >= n {
        scan_calls_from(n, t, left, right, i0 + 1, i_add)
    } else {
        let j = j0 + j_add;
        if j >= t.len() || i < 0 || i >= t.len() {
            None
        } else {
            let tj = t[j];
            if can && tj.lang_type == CompileVocab::FUNCTION(FunctionType::Call) {
                match first_close_from(t, j + 2) {
                    None => None,
                    Some(c) => if j <= left {
                        None
                    } else {
                        match scan_call_args(n, t, j, c + 1) {
                            None => None,
                            Some((t2, ja)) => if t2.len() != n || t2[j].typing.len() == 0
                                || t2[i].typing.len() == 0 {
                                None
                            } else {
                                let t3 = t2.update(i, add_args(t2[i], t2[j].typing.last()));
                                scan_one_call(n, t3, left, right, i0, i_add, i, j0 + 1, ja, false)
                            },
                        }
                    },
                }
            } else if can && spec_stores_native_type(tj.lang_type) {
                if !holds_native_type(tj.lang_type) || t[i].typing.len() == 0 {
                    None
                } else {
                    let t3 = t.update(i, add_args(t[i], seq![spec_native_type(tj.lang_type)]));
                    scan_one_call(n, t3, left, right, i0, i_add, i, j0 + 1, j_add, false)
                }
            } else if tj.lang_type == CompileVocab::FUNCTION(FunctionType::Reference) {
                if t[i].typing.len() == 0 {
                    None
                } else {
                    let t3 = t.update(i, add_args(t[i], seq![LeBlancType::Function]));
                    scan_one_call(n, t3, left, right, i0, i_add, i, j0 + 1, j_add, false)
                }
            } else if tj.lang_type == CompileVocab::BOUNDARY(BoundaryType::Comma) {
                scan_one_call(n, t, left, right, i0, i_add, i, j0 + 1, j_add, true)
            } else if tj.lang_type == CompileVocab::BOUNDARY(BoundaryType::ParenthesisClosed)
                || tj.lang_type == CompileVocab::BOUNDARY(BoundaryType::Semicolon) {
                if i_add + j_add > usize::MAX {
                    None
                } else {
                    scan_calls_from(n, t, left, right, i0 + 1, i_add + j_add)
                }
            } else {
                scan_one_call(n, t, left, right, i0, i_add, i, j0 + 1, j_add, can)
            }
        }
    }
}


proof fn lemma_first_close_range(t: Seq<TypedTokenModel>, lo: int)
    ensures
        first_close_from(t, lo) matches Some(c) ==> lo <= c < t.len(),
    decreases t.len() - lo,
{
    if lo >= 0 && lo < t.len() && t[lo].lang_type != CompileVocab::BOUNDARY(BoundaryType::ParenthesisClosed) {
        lemma_first_close_range(t, lo + 1);
    }
}

/// The first closing parenthesis at index `lo` or after.
fn find_close(typed_tokens: &Vec<TypedToken>, lo: usize) -> (r: Option<usize>)
    ensures
        r matches Some(c) ==> first_close_from(tokens_view(typed_tokens@), lo as int) == Some(c as int),
        r is None ==> first_close_from(tokens_view(typed_tokens@), lo as int) is None,
{
    let ghost t = tokens_view(typed_tokens@);
    let mut k: usize = lo;
    while k < typed_tokens.len()
        invariant
            t == tokens_view(typed_tokens@),
            lo <= k,
            first_close_from(t, lo as int) == first_close_from(t, k as int),
        decreases typed_tokens.len() - k,
    {
        if typed_tokens[k].lang_type() == CompileVocab::BOUNDARY(BoundaryType::ParenthesisClosed) {
            return Some(k);
        }
        k = k + 1;
    }
    None
}

/// Adds `types` at the end of the argument types of the token at `i`.
fn add_args_at(typed_tokens: &mut Vec<TypedToken>, i: usize, types: Vec<LeBlancType>)
    requires
        i < old(typed_tokens)@.len(),
        old(typed_tokens)@[i as int]@.typing.len() >= 1,
    ensures
        tokens_view(final(typed_tokens)@) == tokens_view(old(typed_tokens)@).update(
            i as int,
            add_args(old(typed_tokens)@[i as int]@, types@),
        ),
{
    let mut types = types;
    let ghost tv = types@;
    let mut token = typed_tokens.remove(i);
    token.set_typing_args(&mut types);
    typed_tokens.insert(i, token);
    assert(tokens_view(typed_tokens@) =~= tokens_view(old(typed_tokens)@).update(
        i as int,
        add_args(old(typed_tokens)@[i as int]@, tv),
    ));
}

/// The inner loop of the index-shifting argument pass, for the call at `i`: returns the
/// shift the outer loop goes on with.
fn scan_one(typed_tokens: &mut Vec<TypedToken>, left: usize, right: usize, i0: usize, i_add: usize, i: usize) -> (r: usize)
    requires
        left <= i0 < right,
        i + 1 < old(typed_tokens)@.len(),
        scan_one_call(
            old(typed_tokens)@.len() as int,
            tokens_view(old(typed_tokens)@),
            left as int,
            right as int,
            i0 as int,
            i_add as nat,
            i as int,
            i + 1,
            0,
            true,
        ) is Some,
    ensures
        final(typed_tokens)@.len() == old(typed_tokens)@.len(),
        scan_one_call(
            old(typed_tokens)@.len() as int,
            tokens_view(old(typed_tokens)@),
            left as int,
            right as int,
            i0 as int,
            i_add as nat,
            i as int,
            i + 1,
            0,
            true,
        ) == scan_calls_from(
            old(typed_tokens)@.len() as int,
            tokens_view(final(typed_tokens)@),
            left as int,
            right as int,
            i0 + 1,
            r as nat,
        ),
    decreases old(typed_tokens)@.len() - left, 0int,
{
    let length = typed_tokens.len();
    let ghost n = length as int;
    let ghost goal = scan_one_call(n, tokens_view(typed_tokens@), left as int, right as int, i0 as int, i_add as nat, i as int, i + 1, 0, true);
    let mut can = true;
    let mut j_addition: usize = 0;
    let mut j0: usize = i + 1;
    loop
        invariant
            typed_tokens@.len() == n,
            n == length,
            n == old(typed_tokens)@.len(),
            goal == scan_one_call(
                n,
                tokens_view(old(typed_tokens)@),
                left as int,
                right as int,
                i0 as int,
                i_add as nat,
                i as int,
                i + 1,
                0,
                true,
            ),
            left <= i0 < right,
            i + 1 <= j0,
            i < n,
            goal == scan_one_call(
                n,
                tokens_view(typed_tokens@),
                left as int,
                right as int,
                i0 as int,
                i_add as nat,
                i as int,
                j0 as int,
                j_addition as nat,
                can,
            ),
            goal is Some,
        decreases length - j0,
    {
        let ghost tv = tokens_view(typed_tokens@);
        if j0 >= length {
            return i_add;
        }
        let j = j0 + j_addition;
        let ltj = typed_tokens[j].lang_type();
        if can && ltj == CompileVocab::FUNCTION(FunctionType::Call) {
            let c = find_close(typed_tokens, j + 2).unwrap();
            proof {
                lemma_first_close_range(tv, j + 2);
            }
            let ja = identify_caller_function_args(typed_tokens, j, c + 1);
            let ghost t2 = tokens_view(typed_tokens@);
            let last = copy_types(&typed_tokens[j].typing()[typed_tokens[j].typing().len() - 1]);
            assert(last@ == t2[j as int].typing.last());
            add_args_at(typed_tokens, i, last);
            j_addition = ja;
            can = false;
        } else if can && ltj.stores_native_type() {
            let mut types: Vec<LeBlancType> = Vec::new();
            types.push(*ltj.extract_native_type());
            assert(types@ =~= seq![spec_native_type(ltj)]);
            add_args_at(typed_tokens, i, types);
            can = false;
        } else if ltj == CompileVocab::FUNCTION(FunctionType::Reference) {
            let mut types: Vec<LeBlancType> = Vec::new();
            types.push(LeBlancType::Function);
            assert(types@ =~= seq![LeBlancType::Function]);
            add_args_at(typed_tokens, i, types);
            can = false;
        } else if ltj == CompileVocab::BOUNDARY(BoundaryType::Comma) {
            can = true;
        } else if ltj == CompileVocab::BOUNDARY(BoundaryType::ParenthesisClosed) || ltj
            == CompileVocab::BOUNDARY(BoundaryType::Semicolon) {
            return i_add + j_addition;
        }
        j0 = j0 + 1;
    }
}

/// The index-shifting argument pass over the calls at positions `left_bound..right_bound`:
/// each call takes the types of its arguments, a nested call the return types of the
/// call, and the positions after a call's list shift by the width of its nested calls.
/// Returns the width `right_bound - left_bound`.
pub fn identify_caller_function_args(typed_tokens: &mut Vec<TypedToken>, left_bound: usize, right_bound: usize) -> (r: usize)
    requires
        scan_call_args(
            old(typed_tokens)@.len() as int,
            tokens_view(old(typed_tokens)@),
            left_bound as int,
            right_bound as int,
        ) is Some,
    ensures
        scan_call_args(
            old(typed_tokens)@.len() as int,
            tokens_view(old(typed_tokens)@),
            left_bound as int,
            right_bound as int,
        ) == Some((tokens_view(final(typed_tokens)@), r as nat)),
        final(typed_tokens)@.len() == old(typed_tokens)@.len(),
    decreases old(typed_tokens)@.len() - left_bound, 1int,
{
    let length = typed_tokens.len();
    let ghost n = length as int;
    let ghost goal = scan_calls_from(n, tokens_view(typed_tokens@), left_bound as int, right_bound as int, left_bound as int, 0);
    let mut i_addition: usize = 0;
    let mut i0: usize = left_bound;
    while i0 < right_bound
        invariant
            typed_tokens@.len() == n,
            n == length,
            n == old(typed_tokens)@.len(),
            left_bound <= i0 <= right_bound,
            goal == scan_calls_from(
                n,
                tokens_view(typed_tokens@),
                left_bound as int,
                right_bound as int,
                i0 as int,
                i_addition as nat,
            ),
            goal is Some,
        decreases right_bound - i0,
    {
        let i = i0 + i_addition;
        if i < length && is_call_token(&typed_tokens[i]) && length > i + 1 {
            i_addition = scan_one(typed_tokens, left_bound, right_bound, i0, i_addition, i);
        }
        i0 = i0 + 1;
    }
    right_bound - left_bound
}

/// Whether a token is a call or a reference call.
fn is_call_token(t: &TypedToken) -> (r: bool)
    ensures
        r == is_call(t@),
{
    let lt = t.lang_type();
    lt == CompileVocab::FUNCTION(FunctionType::Call) || lt == CompileVocab::FUNCTION(FunctionType::ReferenceCall)
}

} // verus!
