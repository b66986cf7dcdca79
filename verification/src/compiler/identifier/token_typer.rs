//! The typing pass: gives every source token its role, its scope number and whether it
//! stands in a global declaration, records the roles of names per scope, and collects
//! the imports and extensions a file names.
use vstd::prelude::*;
use crate::compiler::identifier::token::{Token, chars_of};
use crate::compiler::identifier::typed_token::{TypedToken, TypedTokenModel, tokens_view};
use crate::compiler::identifier::type_map::{TypeMap, scopes_view};
use crate::compiler::identifier::token_identifier::{
    fresh_token,
    all_typed,
    anno_run,
    caller_args,
    identified_headers,
    identified_refs,
    identify,
    import_headers_typed,
    lambdas_closed,
    ownership,
    signatures_complete,
    CompilationMode,
};
use crate::compiler::identifier::func_matcher::FuncMatcher;
use crate::compiler::syntax_rules::{assignments_inside, rule2_errors, rule3_errors};
use crate::rustblanc::{Node, TreeModel, forest_model, flatten_forest};
use crate::compiler::import::{Import, ImportType};
use crate::compiler::lang::leblanc_constants::{constant_readable, spec_constant_type, is_constant, constant_type, readable_constant};
use crate::compiler::lang::leblanc_keywords::{LBKeyword, spec_keyword_value, is_keyword, keyword_value};
use crate::compiler::lang::leblanc_lang::{
    BoundaryType,
    CompileVocab,
    ExtensionType,
    FunctionType,
    Specials,
    spec_boundary_value,
    spec_special_value,
    boundary_value,
    is_special,
    special_value,
};
use crate::compiler::lang::leblanc_operators::{spec_operator_type, LBOperator, is_operator, operator_type};
use crate::compiler::symbols::Symbol;
use crate::compiler::syntax_rules::{ExtraTypeSymbol, RuleAnalyzer, rule1_errors};
use crate::native_types::{LeBlancType, NativeTypes, native_lookup};
use crate::rustblanc::{ErrorStub, ErrorStubModel, errors_view};
use crate::text::str_eq;
use vstd::utf8::encode_utf8;

verus! {

/// Which global declaration the typer is in, if any.
#[derive(Clone, Copy, Debug, PartialEq, Eq, Structural)]
pub enum GlobalScopeMarker {
    FuncDeclaration,
    ClassDeclaration,
    ExtensionDeclaration,
    GlobalBlock,
    GlobalLine,
    NotGlobal,
}

/// Whether the character ends the global declaration `scope`.
pub open spec fn spec_allow_global_scope_end(scope: GlobalScopeMarker, ch: char) -> bool {
    match scope {
        GlobalScopeMarker::FuncDeclaration => ch == '{',
        GlobalScopeMarker::ClassDeclaration => ch == '}',
        GlobalScopeMarker::ExtensionDeclaration => ch == '{',
        GlobalScopeMarker::GlobalBlock => ch == '}',
        GlobalScopeMarker::GlobalLine => ch == ';',
        GlobalScopeMarker::NotGlobal => ch == '\0',
    }
}

fn allow_global_scope_end(scope: GlobalScopeMarker, ch: char) -> (r: bool)
    ensures
        r == spec_allow_global_scope_end(scope, ch),
{
    match scope {
        GlobalScopeMarker::FuncDeclaration => ch == '{',
        GlobalScopeMarker::ClassDeclaration => ch == '}',
        GlobalScopeMarker::ExtensionDeclaration => ch == '{',
        GlobalScopeMarker::GlobalBlock => ch == '}',
        GlobalScopeMarker::GlobalLine => ch == ';',
        GlobalScopeMarker::NotGlobal => ch == '\0',
    }
}

/// A symbol is a boundary when its character is one of the boundary characters.
pub open spec fn is_boundary_symbol(s: Symbol) -> bool {
    spec_boundary_value(s.ch()) != BoundaryType::DNE
}

/// A source token as a value: its symbols and its line.
pub type SourceToken = (Seq<Symbol>, u32);

/// The value of a token.
pub open spec fn source_token(t: Token) -> SourceToken {
    (t.spec_symbols(), t.spec_line_number())
}

/// The text of a source token.
pub open spec fn token_text(t: SourceToken) -> Seq<char> {
    chars_of(t.0)
}

/// The typed token made of a token read: its text, line and symbols, with a role, a
/// scope and a globality, and empty typing.
pub open spec fn read_token(t: SourceToken, vocab: CompileVocab, scope: i32, global: bool) -> TypedTokenModel {
    TypedTokenModel {
        token: token_text(t),
        line_number: t.1,
        symbols: t.0,
        lang_type: vocab,
        scope: scope,
        typing: seq![Seq::<LeBlancType>::empty(), Seq::<LeBlancType>::empty()],
        global: global,
    }
}

/// The first symbol of a source token, or the empty symbol.
pub open spec fn token_first(t: SourceToken) -> Symbol {
    if t.0.len() == 0 {
        Symbol::spec_empty()
    } else {
        t.0[0]
    }
}

/// The token of no symbols on line zero, which marks the end of the input.
pub open spec fn is_end_token(t: SourceToken) -> bool {
    t.0.len() == 0 && t.1 == 0
}

/// The end token.
pub open spec fn end_token() -> SourceToken {
    (Seq::empty(), 0)
}

/// The words after which a name is typed by the keyword before it.
pub open spec fn is_follower(s: Seq<char>) -> bool {
    s == "func"@ || s == "Extension"@ || s == "Class"@ || s == "ext"@ || s == "from"@ || s == "of"@
        || s == "using"@
}

/// An import as a value: its name, its source and its kind.
pub type ImportModel = (Seq<char>, Seq<char>, ImportType);

/// The first index at which `x` occurs in `s`, if it does.
pub open spec fn first_index<T>(s: Seq<T>, x: T) -> Option<int>
    decreases s.len(),
{
    if s.len() == 0 {
        None
    } else {
        match first_index(s.drop_last(), x) {
            Some(i) => Some(i),
            None => if s.last() == x {
                Some(s.len() - 1)
            } else {
                None
            },
        }
    }
}

/// The list with `x` added unless it is already in it, and the index of `x`.
pub open spec fn add_once<T>(s: Seq<T>, x: T) -> (Seq<T>, int) {
    match first_index(s, x) {
        Some(i) => (s, i),
        None => (s.push(x), s.len() as int),
    }
}

/// Whether `name` has a role in scope `scope`.
pub open spec fn exists_in_scope(m: Map<Seq<char>, Seq<Seq<CompileVocab>>>, name: Seq<char>, scope: int) -> bool {
    m.contains_key(name) && 0 <= scope < m[name].len() && m[name][scope].len() > 0
}

/// The type map after `name` is given `vocab` in scope `scope`: added to that scope's
/// list, the lists below it created empty where missing. A name seen first as a special
/// marker or as an extension parameter gets no entry.
pub open spec fn record_vocab(
    m: Map<Seq<char>, Seq<Seq<CompileVocab>>>,
    name: Seq<char>,
    scope: nat,
    vocab: CompileVocab,
) -> Map<Seq<char>, Seq<Seq<CompileVocab>>> {
    if m.contains_key(name) {
        let nested = m[name];
        if nested.len() > scope {
            m.insert(name, nested.update(scope as int, nested[scope as int].push(vocab)))
        } else {
            m.insert(
                name,
                nested + Seq::new((scope - nested.len()) as nat, |i: int| Seq::<CompileVocab>::empty())
                    + seq![seq![vocab]],
            )
        }
    } else if vocab is SPECIAL || vocab matches CompileVocab::EXTENSION(
        ExtensionType::ExtensionTypeParam(_),
    ) {
        m
    } else {
        m.insert(name, Seq::new(scope, |i: int| Seq::<CompileVocab>::empty()).push(seq![vocab]))
    }
}

/// The state of the typing pass between two tokens.
pub struct TyperModel {
    pub typed: Seq<TypedTokenModel>,
    pub imports: Seq<ImportModel>,
    pub extensions: Seq<Seq<char>>,
    pub type_map: Map<Seq<char>, Seq<Seq<CompileVocab>>>,
    pub errors: Seq<ErrorStubModel>,
    pub open_parens: Seq<ExtraTypeSymbol>,
    pub closed_parens: Seq<ExtraTypeSymbol>,
    pub brace_counter: int,
    pub scope_value: nat,
    pub global_scope: GlobalScopeMarker,
}

/// The type a native type table gives a name, or the unknown class.
pub open spec fn native_type_value(natives: Seq<(Seq<char>, LeBlancType)>, s: Seq<char>) -> LeBlancType {
    match native_lookup(natives, s) {
        Some(t) => t,
        None => LeBlancType::Class(0),
    }
}

/// The role of a name typed by the keyword before it (`using`, `func`, `Extension`,
/// `Class`), with what that records.
pub open spec fn follower_vocab(st: TyperModel, ts: Seq<char>) -> (CompileVocab, TyperModel) {
    let unknown = CompileVocab::UNKNOWN(LeBlancType::Class(0));
    match st.typed.last().lang_type {
        CompileVocab::KEYWORD(LBKeyword::Using) => if !(ts == "ext"@ || ts == "extension"@) {
            let (imports, index) = add_once(st.imports, (ts, ts, ImportType::File));
            (CompileVocab::MODULE(index as u64), TyperModel { imports, ..st })
        } else {
            (CompileVocab::EXTENSION(ExtensionType::ExtensionTypeImport(0)), st)
        },
        CompileVocab::KEYWORD(LBKeyword::Func) => (CompileVocab::FUNCTION(FunctionType::Header), st),
        CompileVocab::KEYWORD(LBKeyword::Extension) => {
            let (extensions, index) = add_once(st.extensions, ts);
            (
                CompileVocab::EXTENSION(ExtensionType::ExtensionTypeExport(index as u32)),
                TyperModel {
                    extensions,
                    global_scope: GlobalScopeMarker::ExtensionDeclaration,
                    ..st
                },
            )
        },
        CompileVocab::KEYWORD(LBKeyword::Class) => (CompileVocab::CLASS(LeBlancType::Class(0)), st),
        _ => (unknown, st),
    }
}

/// The role of a name that nothing else types: a class, a native type, a variable of the
/// type just named, a name already known in this scope, a call, or a new type.
pub open spec fn name_vocab(
    st: TyperModel,
    ts: Seq<char>,
    next: SourceToken,
    natives: Seq<(Seq<char>, LeBlancType)>,
) -> Option<CompileVocab> {
    let unknown = CompileVocab::UNKNOWN(LeBlancType::Class(0));
    let nfs = token_first(next);
    let ns = token_text(next);
    if ts == "class"@ {
        Some(CompileVocab::TYPE(LeBlancType::Class(0)))
    } else if native_lookup(natives, ts) is Some {
        Some(CompileVocab::TYPE(native_type_value(natives, ts)))
    } else if st.typed.len() > 0 && st.typed.last().lang_type is TYPE {
        Some(CompileVocab::VARIABLE(st.typed.last().lang_type->TYPE_0))
    } else if exists_in_scope(st.type_map, ts, st.scope_value as int) {
        Some(st.type_map[ts][st.scope_value as int][0])
    } else if is_boundary_symbol(nfs) {
        if nfs.ch() == '(' {
            Some(CompileVocab::FUNCTION(FunctionType::Call))
        } else {
            Some(unknown)
        }
    } else if !constant_readable(ns) {
        None
    } else if spec_constant_type(ns) != LeBlancType::Class(0) {
        Some(unknown)
    } else if ns == "="@ || ns == "->"@ {
        Some(unknown)
    } else {
        Some(CompileVocab::TYPE(LeBlancType::Class(0)))
    }
}

/// The role of the token `t`, followed by `next`, with what choosing it records: scope
/// numbers and declarations opened by keywords, brace counts and rule 1 at semicolons,
/// imports and extensions. `None` where a lookup the typing relies on finds nothing.
pub open spec fn vocab_of(
    st: TyperModel,
    t: SourceToken,
    next: SourceToken,
    natives: Seq<(Seq<char>, LeBlancType)>,
) -> Option<(CompileVocab, TyperModel)> {
    let ts = token_text(t);
    let fs = token_first(t);
    let nfs = token_first(next);
    let m = st.type_map;
    let sv = st.scope_value;
    if m.contains_key(ts) && spec_keyword_value(ts) == LBKeyword::Null && !is_boundary_symbol(fs)
        && m[ts].len() > sv {
        let here = m[ts][sv as int];
        if here.len() == 0 {
            None
        } else if nfs.ch() == '(' {
            match here[0] {
                CompileVocab::TYPE(tt) => Some((CompileVocab::CONSTRUCTOR(tt), st)),
                _ => Some((CompileVocab::FUNCTION(FunctionType::Call), st)),
            }
        } else {
            Some((here[0], st))
        }
    } else if spec_special_value(ts) != Specials::DNE {
        if ts == "->"@ {
            Some((CompileVocab::SPECIAL(spec_special_value(ts), 0), st))
        } else {
            Some((CompileVocab::SPECIAL(spec_special_value(ts), 120), st))
        }
    } else if spec_operator_type(ts) != LBOperator::NULL {
        Some((CompileVocab::OPERATOR(spec_operator_type(ts)), st))
    } else if spec_keyword_value(ts) != LBKeyword::Null {
        let kw = spec_keyword_value(ts);
        if kw == LBKeyword::Func {
            Some(
                (
                    CompileVocab::KEYWORD(kw),
                    TyperModel {
                        scope_value: sv + 1,
                        global_scope: GlobalScopeMarker::FuncDeclaration,
                        ..st
                    },
                ),
            )
        } else if kw == LBKeyword::Class {
            Some(
                (
                    CompileVocab::KEYWORD(kw),
                    TyperModel {
                        scope_value: sv + 1,
                        global_scope: GlobalScopeMarker::ClassDeclaration,
                        ..st
                    },
                ),
            )
        } else {
            Some((CompileVocab::KEYWORD(kw), st))
        }
    } else if !constant_readable(ts) {
        None
    } else if spec_constant_type(ts) != LeBlancType::Class(0) {
        Some((CompileVocab::CONSTANT(spec_constant_type(ts)), st))
    } else if is_boundary_symbol(fs) {
        let v = CompileVocab::BOUNDARY(spec_boundary_value(fs.ch()));
        if fs.ch() == '{' {
            Some((v, TyperModel { brace_counter: st.brace_counter + 1, ..st }))
        } else if fs.ch() == '}' {
            Some((v, TyperModel { brace_counter: st.brace_counter - 1, ..st }))
        } else if fs.ch() == ';' {
            Some(
                (
                    v,
                    TyperModel {
                        errors: st.errors + rule1_errors(st.open_parens) + rule1_errors(
                            st.closed_parens,
                        ),
                        ..st
                    },
                ),
            )
        } else {
            Some((v, st))
        }
    } else if st.typed.len() > 0 && is_follower(st.typed.last().token) {
        Some(follower_vocab(st, ts))
    } else {
        match name_vocab(st, ts, next, natives) {
            None => None,
            Some(v) => Some((v, st)),
        }
    }
}

/// The declaration error that a token standing outside any declaration at the top level
/// raises, if any.
pub open spec fn global_error(vocab: CompileVocab, last: TypedTokenModel) -> bool {
    match vocab {
        CompileVocab::KEYWORD(_) => false,
        CompileVocab::MODULE(_) => false,
        CompileVocab::BOUNDARY(_) => false,
        CompileVocab::EXTENSION(_) => false,
        CompileVocab::CLASS(_) => last.lang_type != CompileVocab::KEYWORD(LBKeyword::Class),
        CompileVocab::TYPE(_) => last.lang_type != CompileVocab::KEYWORD(LBKeyword::Of),
        CompileVocab::FUNCTION(_) => last.lang_type != CompileVocab::KEYWORD(LBKeyword::Func),
        _ => true,
    }
}

/// The state with the parenthesis that `t` opens or closes recorded for rule 1, with
/// the role of the token before it.
pub open spec fn with_paren(st0: TyperModel, t: SourceToken) -> TyperModel {
    let fs = token_first(t);
    if fs.ch() == '(' {
        TyperModel {
            open_parens: st0.open_parens.push(
                ExtraTypeSymbol { symbol: fs, vocab: st0.typed.last().lang_type },
            ),
            ..st0
        }
    } else if fs.ch() == ')' {
        if st0.open_parens.len() == 0 {
            TyperModel {
                closed_parens: st0.closed_parens.push(
                    ExtraTypeSymbol { symbol: fs, vocab: st0.typed.last().lang_type },
                ),
                ..st0
            }
        } else {
            TyperModel { open_parens: st0.open_parens.drop_last(), ..st0 }
        }
    } else {
        st0
    }
}

/// Whether the typing step can type `t`: it is no parenthesis standing first, and its
/// role can be chosen.
pub open spec fn step_ready(
    st0: TyperModel,
    t: SourceToken,
    next: SourceToken,
    natives: Seq<(Seq<char>, LeBlancType)>,
) -> bool {
    let fs = token_first(t);
    &&& !((fs.ch() == '(' || fs.ch() == ')') && st0.typed.len() == 0)
    &&& vocab_of(with_paren(st0, t), t, next, natives) is Some
}

/// Whether a role can be chosen does not depend on the parentheses recorded.
proof fn lemma_vocab_ready_paren(
    st0: TyperModel,
    t: SourceToken,
    next: SourceToken,
    natives: Seq<(Seq<char>, LeBlancType)>,
)
    ensures
        (vocab_of(with_paren(st0, t), t, next, natives) is Some) == (vocab_of(st0, t, next, natives) is Some),
{
    let st = with_paren(st0, t);
    assert(st.type_map == st0.type_map && st.scope_value == st0.scope_value && st.typed == st0.typed);
    assert((name_vocab(st, token_text(t), next, natives) is Some) == (name_vocab(st0, token_text(t), next, natives) is Some));
}

/// One step of the typing pass: types the token `t`, which `next` follows.
pub open spec fn type_step(
    st0: TyperModel,
    t: SourceToken,
    next: SourceToken,
    natives: Seq<(Seq<char>, LeBlancType)>,
) -> Option<TyperModel> {
    let ts = token_text(t);
    let fs = token_first(t);
    let ns = token_text(next);
    let nfs = token_first(next);
    if (fs.ch() == '(' || fs.ch() == ')') && st0.typed.len() == 0 {
        None
    } else {
        let st = with_paren(st0, t);
        match vocab_of(st, t, next, natives) {
            None => None,
            Some((v0, st1)) => {
                let vocab = if st1.global_scope == GlobalScopeMarker::ExtensionDeclaration && v0
                    == CompileVocab::UNKNOWN(LeBlancType::Class(0)) {
                    CompileVocab::EXTENSION(
                        ExtensionType::ExtensionTypeParam(native_type_value(natives, ts)),
                    )
                } else {
                    v0
                };
                let g1 = if vocab == CompileVocab::KEYWORD(LBKeyword::Global) || vocab is CLASS {
                    GlobalScopeMarker::GlobalBlock
                } else {
                    st1.global_scope
                };
                let scope: nat = if g1 == GlobalScopeMarker::GlobalLine || g1
                    == GlobalScopeMarker::GlobalBlock {
                    0
                } else {
                    st1.scope_value
                };
                let m = record_vocab(st1.type_map, ts, scope, vocab);
                let global = g1 != GlobalScopeMarker::NotGlobal;
                let e1 = if vocab is TYPE && exists_in_scope(m, ns, scope as int)
                    && !is_boundary_symbol(nfs) {
                    st1.errors.push(
                        ErrorStubModel::VariableAlreadyDefined(
                            read_token(next, vocab, scope as i32, global),
                        ),
                    )
                } else {
                    st1.errors
                };
                let tt = read_token(t, vocab, scope as i32, global);
                let e2 = if (st1.scope_value == 0 || st1.brace_counter == 0) && !global
                    && st1.typed.len() > 0 && global_error(vocab, st1.typed.last()) {
                    e1.push(ErrorStubModel::InvalidGlobalVariableDeclaration(tt))
                } else {
                    e1
                };
                let g2 = if spec_allow_global_scope_end(g1, fs.ch()) {
                    GlobalScopeMarker::NotGlobal
                } else {
                    g1
                };
                if vocab is CLASS && !m.contains_key("Class"@) {
                    None
                } else {
                    Some(
                        TyperModel {
                            typed: st1.typed.push(tt),
                            type_map: m,
                            errors: e2,
                            global_scope: if vocab is CLASS {
                                GlobalScopeMarker::NotGlobal
                            } else {
                                g2
                            },
                            ..st1
                        },
                    )
                }
            },
        }
    }
}

/// The typing pass over `rest`, the tokens in the order they are read; it stops early at
/// a last token that is the end marker.
pub open spec fn type_run(st: TyperModel, rest: Seq<SourceToken>, natives: Seq<(Seq<char>, LeBlancType)>) -> Option<TyperModel>
    decreases rest.len(),
{
    if rest.len() == 0 || (rest.len() == 1 && is_end_token(rest[0])) {
        Some(st)
    } else {
        let next = if rest.len() > 1 {
            rest[1]
        } else {
            end_token()
        };
        match type_step(st, rest[0], next, natives) {
            None => None,
            Some(st2) => type_run(st2, rest.drop_first(), natives),
        }
    }
}

/// The state the typing pass starts from, with the errors found before it.
pub open spec fn typer_start(errors: Seq<ErrorStubModel>) -> TyperModel {
    TyperModel {
        typed: Seq::empty(),
        imports: Seq::empty(),
        extensions: Seq::empty(),
        type_map: Map::empty(),
        errors,
        open_parens: Seq::empty(),
        closed_parens: Seq::empty(),
        brace_counter: 0,
        scope_value: 0,
        global_scope: GlobalScopeMarker::NotGlobal,
    }
}


pub proof fn lemma_first_index<T>(s: Seq<T>, x: T)
    ensures
        first_index(s, x) matches Some(i) ==> 0 <= i < s.len() && s[i] == x && forall|j: int|
            0 <= j < i ==> s[j] != x,
        first_index(s, x) is None ==> forall|j: int| 0 <= j < s.len() ==> s[j] != x,
    decreases s.len(),
{
    if s.len() > 0 {
        lemma_first_index(s.drop_last(), x);
        assert forall|j: int| 0 <= j < s.len() - 1 implies s.drop_last()[j] == s[j] by {}
    }
}

pub proof fn lemma_add_once<T>(s: Seq<T>, x: T)
    ensures
        add_once(s, x).0.len() <= s.len() + 1,
        0 <= add_once(s, x).1 < add_once(s, x).0.len(),
{
    lemma_first_index(s, x);
}

/// The values of a list of imports.
pub open spec fn imports_view(v: Seq<Import>) -> Seq<ImportModel> {
    v.map_values(|i: Import| (i.name@, i.source@, i.import_type))
}

/// The values of a list of strings.
pub open spec fn strings_view(v: Seq<String>) -> Seq<Seq<char>> {
    v.map_values(|x: String| x@)
}

/// Adds an import unless an equal one is there; returns its index.
fn add_import(imports: &mut Vec<Import>, name: &String, source: &String, import_type: ImportType) -> (r: usize)
    ensures
        (imports_view(final(imports)@), r as int) == add_once(
            imports_view(old(imports)@),
            (name@, source@, import_type),
        ),
{
    let ghost x = (name@, source@, import_type);
    let ghost v = imports_view(imports@);
    proof {
        lemma_first_index(v, x);
    }
    let mut i: usize = 0;
    while i < imports.len()
        invariant
            i <= imports.len(),
            v == imports_view(imports@),
            x == (name@, source@, import_type),
            forall|j: int| 0 <= j < i ==> v[j] != x,
            first_index(v, x) matches Some(k) ==> 0 <= k < v.len() && v[k] == x && forall|j: int|
                0 <= j < k ==> v[j] != x,
            first_index(v, x) is None ==> forall|j: int| 0 <= j < v.len() ==> v[j] != x,
        decreases imports.len() - i,
    {
        assert(v[i as int] == (imports@[i as int].name@, imports@[i as int].source@, imports@[i as int].import_type));
        if str_eq(imports[i].name.as_str(), name.as_str()) && str_eq(imports[i].source.as_str(), source.as_str())
            && imports[i].import_type == import_type {
            assert(v[i as int] == x);
            return i;
        }
        i = i + 1;
    }
    let import = Import::new(name, source, import_type);
    imports.push(import);
    assert(imports_view(imports@) =~= v.push(x));
    imports.len() - 1
}

/// Adds a name unless it is there; returns its index.
fn add_extension(extensions: &mut Vec<String>, name: &String) -> (r: usize)
    ensures
        (strings_view(final(extensions)@), r as int) == add_once(strings_view(old(extensions)@), name@),
{
    let ghost v = strings_view(extensions@);
    proof {
        lemma_first_index(v, name@);
    }
    let mut i: usize = 0;
    while i < extensions.len()
        invariant
            i <= extensions.len(),
            v == strings_view(extensions@),
            forall|j: int| 0 <= j < i ==> v[j] != name@,
            first_index(v, name@) matches Some(k) ==> 0 <= k < v.len() && v[k] == name@ && forall|
                j: int,
            | 0 <= j < k ==> v[j] != name@,
            first_index(v, name@) is None ==> forall|j: int| 0 <= j < v.len() ==> v[j] != name@,
        decreases extensions.len() - i,
    {
        assert(v[i as int] == extensions@[i as int]@);
        if str_eq(extensions[i].as_str(), name.as_str()) {
            return i;
        }
        i = i + 1;
    }
    extensions.push(name.clone());
    assert(strings_view(extensions@) =~= v.push(name@));
    extensions.len() - 1
}

/// Copies a list of roles.
fn copy_vocabs(v: &Vec<CompileVocab>) -> (r: Vec<CompileVocab>)
    ensures
        r@ == v@,
{
    let mut r: Vec<CompileVocab> = Vec::new();
    let mut i: usize = 0;
    while i < v.len()
        invariant
            i <= v.len(),
            r@ == v@.subrange(0, i as int),
        decreases v.len() - i,
    {
        r.push(v[i]);
        i = i + 1;
    }
    assert(r@ =~= v@);
    r
}

/// Copies the scope lists of a name.
fn copy_scopes(v: &Vec<Vec<CompileVocab>>) -> (r: Vec<Vec<CompileVocab>>)
    ensures
        scopes_view(r@) == scopes_view(v@),
{
    let mut r: Vec<Vec<CompileVocab>> = Vec::new();
    let mut i: usize = 0;
    while i < v.len()
        invariant
            i <= v.len(),
            scopes_view(r@) == scopes_view(v@.subrange(0, i as int)),
        decreases v.len() - i,
    {
        r.push(copy_vocabs(&v[i]));
        assert(scopes_view(v@.subrange(0, i + 1)) =~= scopes_view(v@.subrange(0, i as int)).push(
            v@[i as int]@,
        ));
        i = i + 1;
    }
    assert(v@.subrange(0, v@.len() as int) =~= v@);
    r
}

/// Gives `name` the role `vocab` in scope `scope`.
fn record_vocab_in(type_map: &mut TypeMap, name: &String, scope: usize, vocab: CompileVocab)
    requires
        old(type_map).wf(),
    ensures
        final(type_map).wf(),
        final(type_map)@ == record_vocab(old(type_map)@, name@, scope as nat, vocab),
{
    let ghost m = type_map@;
    match type_map.get(name.as_str()) {
        Some(existing) => {
            let mut nested = copy_scopes(existing);
            let ghost nv = scopes_view(nested@);
            if nested.len() > scope {
                let mut list = nested.remove(scope);
                list.push(vocab);
                nested.insert(scope, list);
                assert(scopes_view(nested@) =~= nv.update(scope as int, nv[scope as int].push(vocab)));
            } else {
                let n0 = nested.len();
                let mut k: usize = 0;
                while k < scope - n0
                    invariant
                        n0 == nv.len(),
                        n0 <= scope,
                        k <= scope - n0,
                        scopes_view(nested@) == nv + Seq::new(k as nat, |i: int| Seq::<CompileVocab>::empty()),
                    decreases scope - n0 - k,
                {
                    let ghost before = scopes_view(nested@);
                    let e: Vec<CompileVocab> = Vec::new();
                    assert(e@ =~= Seq::<CompileVocab>::empty());
                    nested.push(e);
                    assert(scopes_view(nested@) =~= before.push(Seq::<CompileVocab>::empty()));
                    assert(scopes_view(nested@) =~= nv + Seq::new((k + 1) as nat, |i: int| Seq::<CompileVocab>::empty()));
                    k = k + 1;
                }
                let mut list: Vec<CompileVocab> = Vec::new();
                list.push(vocab);
                let ghost before = scopes_view(nested@);
                nested.push(list);
                assert(list@ =~= seq![vocab]);
                assert(scopes_view(nested@) =~= before.push(seq![vocab]));
                assert(scopes_view(nested@) =~= nv + Seq::new((scope - nv.len()) as nat, |i: int| Seq::<CompileVocab>::empty()) + seq![seq![vocab]]);
            }
            assert(nv == m[name@]);
            type_map.insert(name.clone(), nested);
        },
        None => {
            let skip = match vocab {
                CompileVocab::SPECIAL(..) => true,
                CompileVocab::EXTENSION(ExtensionType::ExtensionTypeParam(_)) => true,
                _ => false,
            };
            if !skip {
                let mut nested: Vec<Vec<CompileVocab>> = Vec::new();
                let mut k: usize = 0;
                while k < scope
                    invariant
                        k <= scope,
                        scopes_view(nested@) == Seq::new(k as nat, |i: int| Seq::<CompileVocab>::empty()),
                    decreases scope - k,
                {
                    let ghost before = scopes_view(nested@);
                    let e: Vec<CompileVocab> = Vec::new();
                    assert(e@ =~= Seq::<CompileVocab>::empty());
                    nested.push(e);
                    assert(scopes_view(nested@) =~= before.push(Seq::<CompileVocab>::empty()));
                    assert(scopes_view(nested@) =~= Seq::new((k + 1) as nat, |i: int| Seq::<CompileVocab>::empty()));
                    k = k + 1;
                }
                let mut list: Vec<CompileVocab> = Vec::new();
                list.push(vocab);
                let ghost before = scopes_view(nested@);
                nested.push(list);
                assert(list@ =~= seq![vocab]);
                assert(scopes_view(nested@) =~= before.push(seq![vocab]));
                type_map.insert(name.clone(), nested);
            }
        },
    }
}

/// Whether `name` has a role in scope `scope`.
fn exists_in_scope_of(type_map: &TypeMap, name: &str, scope: usize) -> (r: bool)
    requires
        type_map.wf(),
    ensures
        r == exists_in_scope(type_map@, name@, scope as int),
{
    match type_map.get(name) {
        None => false,
        Some(scopes) => {
            if scope < scopes.len() {
                assert(scopes_view(scopes@)[scope as int] == scopes@[scope as int]@);
                scopes[scope].len() > 0
            } else {
                false
            }
        },
    }
}


/// Whether `s` is one of the words after which a name is typed by the keyword before it.
fn follower_word(s: &str) -> (r: bool)
    ensures
        r == is_follower(s@),
{
    str_eq(s, "func") || str_eq(s, "Extension") || str_eq(s, "Class") || str_eq(s, "ext")
        || str_eq(s, "from") || str_eq(s, "of") || str_eq(s, "using")
}

/// Whether a symbol is a boundary.
fn symbol_is_boundary(s: &Symbol) -> (r: bool)
    ensures
        r == is_boundary_symbol(*s),
{
    boundary_value(s.char()) != BoundaryType::DNE
}

/// The state of the typing pass: the tokens typed so far, the imports and extensions
/// named, the roles of names per scope, the errors, the parentheses rule 1 watches, the
/// brace count, the scope number and the global declaration the pass stands in.
pub struct TokenTyper {
    pub typed_tokens: Vec<TypedToken>,
    pub imports: Vec<Import>,
    pub extensions: Vec<String>,
    pub type_map: TypeMap,
    pub errors: Vec<ErrorStub>,
    pub analysis: RuleAnalyzer,
    pub brace_counter: i32,
    pub scope_value: usize,
    pub global_scope: GlobalScopeMarker,
    pub path: String,
}

impl TokenTyper {
    /// The path of the file the tokens were read from.
    pub open spec fn spec_path(&self) -> Seq<char> {
        self.path@
    }

    /// The state as a value.
    pub open spec fn model(&self) -> TyperModel {
        TyperModel {
            typed: tokens_view(self.typed_tokens@),
            imports: imports_view(self.imports@),
            extensions: strings_view(self.extensions@),
            type_map: self.type_map@,
            errors: errors_view(self.errors@),
            open_parens: self.analysis.open_parenthesis@,
            closed_parens: self.analysis.closed_parenthesis@,
            brace_counter: self.brace_counter as int,
            scope_value: self.scope_value as nat,
            global_scope: self.global_scope,
        }
    }

    /// The counters stay within `k`, the number of tokens typed.
    pub open spec fn bounded(&self, k: int) -> bool {
        &&& self.scope_value <= k
        &&& -k <= self.brace_counter <= k
        &&& self.imports@.len() <= k
        &&& self.extensions@.len() <= k
        &&& self.type_map.wf()
        &&& all_typed(tokens_view(self.typed_tokens@))
    }

    /// The state the pass starts from.
    pub fn new(errors: Vec<ErrorStub>) -> (r: TokenTyper)
        ensures
            r.model() == typer_start(errors_view(errors@)),
            r.bounded(0),
    {
        let r = TokenTyper {
            typed_tokens: Vec::new(),
            imports: Vec::new(),
            extensions: Vec::new(),
            type_map: TypeMap::new(),
            errors,
            analysis: RuleAnalyzer::new(),
            brace_counter: 0,
            scope_value: 0,
            global_scope: GlobalScopeMarker::NotGlobal,
            path: String::new(),
        };
        assert(tokens_view(r.typed_tokens@) =~= Seq::<TypedTokenModel>::empty());
        assert(imports_view(r.imports@) =~= Seq::<ImportModel>::empty());
        assert(strings_view(r.extensions@) =~= Seq::<Seq<char>>::empty());
        r
    }

    /// Chooses the role of a name that nothing else types.
    fn name_role(&self, ts: &String, next: &Token, natives: &NativeTypes) -> (v: CompileVocab)
        requires
            self.type_map.wf(),
            encode_utf8(next.spec_string()).len() <= usize::MAX,
            name_vocab(self.model(), ts@, source_token(*next), natives@) is Some,
        ensures
            v == name_vocab(self.model(), ts@, source_token(*next), natives@).unwrap(),
    {
        let unknown = CompileVocab::UNKNOWN(LeBlancType::Class(0));
        let nfs = next.first_symbol_or_empty();
        let ns = next.as_string();
        let n = self.typed_tokens.len();
        if str_eq(ts.as_str(), "class") {
            CompileVocab::TYPE(LeBlancType::Class(0))
        } else if natives.is_native_type(ts.as_str()) {
            CompileVocab::TYPE(natives.type_value(ts.as_str()))
        } else if n > 0 && matches!(self.typed_tokens[n - 1].lang_type(), CompileVocab::TYPE(_)) {
            let last = self.typed_tokens[n - 1].lang_type();
            match last {
                CompileVocab::TYPE(inner) => CompileVocab::VARIABLE(inner),
                _ => unknown,
            }
        } else if exists_in_scope_of(&self.type_map, ts.as_str(), self.scope_value) {
            let scopes = self.type_map.get(ts.as_str()).unwrap();
            assert(scopes_view(scopes@)[self.scope_value as int] == scopes@[self.scope_value as int]@);
            scopes[self.scope_value][0]
        } else if symbol_is_boundary(&nfs) {
            if *nfs.char() == '(' {
                CompileVocab::FUNCTION(FunctionType::Call)
            } else {
                unknown
            }
        } else if is_constant(ns.as_str()) {
            unknown
        } else if str_eq(ns.as_str(), "=") || str_eq(ns.as_str(), "->") {
            unknown
        } else {
            CompileVocab::TYPE(LeBlancType::Class(0))
        }
    }

    /// Whether the role of the token `t`, which `next` follows, can be chosen: not where a
    /// name is known in this scope with no role, nor where a word would be read as a
    /// constant with its last character cut in two.
    fn vocab_defined(&self, t: &Token, next: &Token, natives: &NativeTypes) -> (r: bool)
        requires
            self.type_map.wf(),
            encode_utf8(t.spec_string()).len() <= usize::MAX,
            encode_utf8(next.spec_string()).len() <= usize::MAX,
        ensures
            r == vocab_of(self.model(), source_token(*t), source_token(*next), natives@) is Some,
    {
        let ts = t.as_string();
        let fs = t.first_symbol_or_empty();
        let nfs = next.first_symbol_or_empty();
        let ns = next.as_string();
        let fs_boundary = symbol_is_boundary(&fs);
        let keyword = is_keyword(ts.as_str());
        let in_scope = match self.type_map.get(ts.as_str()) {
            Some(scopes) => scopes.len() > self.scope_value,
            None => false,
        };
        let n = self.typed_tokens.len();
        if in_scope && !keyword && !fs_boundary {
            let scopes = self.type_map.get(ts.as_str()).unwrap();
            assert(scopes_view(scopes@)[self.scope_value as int] == scopes@[self.scope_value as int]@);
            scopes[self.scope_value].len() > 0
        } else if is_special(ts.as_str()) || is_operator(ts.as_str()) || keyword {
            true
        } else if !readable_constant(ts.as_str()) {
            false
        } else if is_constant(ts.as_str()) || fs_boundary {
            true
        } else if n > 0 && follower_word(self.typed_tokens[n - 1].as_string().as_str()) {
            true
        } else if str_eq(ts.as_str(), "class") || natives.is_native_type(ts.as_str()) {
            true
        } else if n > 0 && matches!(self.typed_tokens[n - 1].lang_type(), CompileVocab::TYPE(_)) {
            true
        } else if exists_in_scope_of(&self.type_map, ts.as_str(), self.scope_value) || symbol_is_boundary(&nfs) {
            true
        } else {
            readable_constant(ns.as_str())
        }
    }

    /// Chooses the role of the token `t`, which `next` follows, and records what that
    /// choice opens or counts.
    fn choose_vocab(&mut self, t: &Token, next: &Token, natives: &NativeTypes, k: Ghost<int>) -> (v: CompileVocab)
        requires
            old(self).bounded(k@),
            0 <= k@ < i32::MAX - 1,
            encode_utf8(t.spec_string()).len() <= usize::MAX,
            encode_utf8(next.spec_string()).len() <= usize::MAX,
            vocab_of(old(self).model(), source_token(*t), source_token(*next), natives@) is Some,
        ensures
            (v, final(self).model()) == vocab_of(
                old(self).model(),
                source_token(*t),
                source_token(*next),
                natives@,
            ).unwrap(),
            final(self).bounded(k@ + 1),
            final(self).typed_tokens == old(self).typed_tokens,
    {
        let ts = t.as_string();
        let fs = t.first_symbol_or_empty();
        let nfs = next.first_symbol_or_empty();
        let fs_boundary = symbol_is_boundary(&fs);
        let keyword = is_keyword(ts.as_str());
        let in_scope = match self.type_map.get(ts.as_str()) {
            Some(scopes) => scopes.len() > self.scope_value,
            None => false,
        };
        if in_scope && !keyword && !fs_boundary {
            let scopes = self.type_map.get(ts.as_str()).unwrap();
            assert(scopes_view(scopes@)[self.scope_value as int] == scopes@[self.scope_value as int]@);
            let first = scopes[self.scope_value][0];
            if *nfs.char() == '(' {
                match first {
                    CompileVocab::TYPE(tt) => CompileVocab::CONSTRUCTOR(tt),
                    _ => CompileVocab::FUNCTION(FunctionType::Call),
                }
            } else {
                first
            }
        } else if is_special(ts.as_str()) {
            if str_eq(ts.as_str(), "->") {
                CompileVocab::SPECIAL(special_value(ts.as_str()), 0)
            } else {
                CompileVocab::SPECIAL(special_value(ts.as_str()), 120)
            }
        } else if is_operator(ts.as_str()) {
            CompileVocab::OPERATOR(operator_type(ts.as_str()))
        } else if keyword {
            let kw = keyword_value(ts.as_str());
            if kw == LBKeyword::Func {
                self.scope_value = self.scope_value + 1;
                self.global_scope = GlobalScopeMarker::FuncDeclaration;
            } else if kw == LBKeyword::Class {
                self.scope_value = self.scope_value + 1;
                self.global_scope = GlobalScopeMarker::ClassDeclaration;
            }
            CompileVocab::KEYWORD(kw)
        } else if is_constant(ts.as_str()) {
            CompileVocab::CONSTANT(constant_type(ts.as_str()))
        } else if fs_boundary {
            let c = *fs.char();
            if c == '{' {
                self.brace_counter = self.brace_counter + 1;
            } else if c == '}' {
                self.brace_counter = self.brace_counter - 1;
            } else if c == ';' {
                self.analysis.evaluate_rule1(&mut self.errors);
            }
            CompileVocab::BOUNDARY(boundary_value(fs.char()))
        } else if self.typed_tokens.len() > 0 && follower_word(
            self.typed_tokens[self.typed_tokens.len() - 1].as_string().as_str(),
        ) {
            self.follower_role(&ts)
        } else {
            self.name_role(&ts, next, natives)
        }
    }

    /// Types the token `t`, which `next` follows. Tells whether the step could be taken:
    /// it cannot where a token takes the class role before the word `Class` was read; what
    /// the state is left holding then is not said.
    #[verifier::rlimit(40)]
    pub fn type_token(&mut self, t: Token, next: &Token, natives: &NativeTypes, k: Ghost<int>) -> (ok: bool)
        requires
            old(self).bounded(k@),
            0 <= k@ < i32::MAX - 1,
            encode_utf8(t.spec_string()).len() <= usize::MAX,
            encode_utf8(next.spec_string()).len() <= usize::MAX,
            step_ready(old(self).model(), source_token(t), source_token(*next), natives@),
        ensures
            ok == type_step(old(self).model(), source_token(t), source_token(*next), natives@) is Some,
            ok ==> final(self).model() == type_step(
                old(self).model(),
                source_token(t),
                source_token(*next),
                natives@,
            ).unwrap(),
            ok ==> final(self).bounded(k@ + 1),
            ok ==> bases(final(self).typed_tokens@) == bases(old(self).typed_tokens@).push(t),
    {
        let ghost st0 = self.model();
        let ghost tm = source_token(t);
        let ghost nm = source_token(*next);
        let fs = t.first_symbol_or_empty();
        if *fs.char() == '(' || *fs.char() == ')' {
            let lt = self.typed_tokens[self.typed_tokens.len() - 1].lang_type();
            self.analysis.add_parenthesis(fs, lt);
        }
        let ghost stp = self.model();
        assert(stp == with_paren(st0, tm));
        let v0 = self.choose_vocab(&t, next, natives, k);
        let ghost st1 = self.model();
        let ts = t.as_string();
        let mut vocab = v0;
        if self.global_scope == GlobalScopeMarker::ExtensionDeclaration && vocab
            == CompileVocab::UNKNOWN(LeBlancType::Class(0)) {
            vocab = CompileVocab::EXTENSION(ExtensionType::ExtensionTypeParam(natives.type_value(ts.as_str())));
        }
        if vocab == CompileVocab::KEYWORD(LBKeyword::Global) || matches!(vocab, CompileVocab::CLASS(_)) {
            self.global_scope = GlobalScopeMarker::GlobalBlock;
        }
        let temp_scope_value = self.scope_value;
        if self.global_scope == GlobalScopeMarker::GlobalLine || self.global_scope
            == GlobalScopeMarker::GlobalBlock {
            self.scope_value = 0;
        }
        record_vocab_in(&mut self.type_map, &ts, self.scope_value, vocab);
        if matches!(vocab, CompileVocab::CLASS(_)) && !self.type_map.contains_key("Class") {
            proof {
                reveal_strlit("Class");
            }
            return false;
        }
        let global = self.global_scope != GlobalScopeMarker::NotGlobal;
        if matches!(vocab, CompileVocab::TYPE(_)) {
            let ns = next.as_string();
            let nfs = next.first_symbol_or_empty();
            if exists_in_scope_of(&self.type_map, ns.as_str(), self.scope_value) && !symbol_is_boundary(&nfs) {
                self.errors.push(
                    ErrorStub::VariableAlreadyDefined(
                        TypedToken::new(next.copy(), vocab, self.scope_value as i32, global),
                    ),
                );
            }
        }
        let typed_token = TypedToken::new(t, vocab, self.scope_value as i32, global);
        self.scope_value = temp_scope_value;
        if self.scope_value == 0 || self.brace_counter == 0 {
            if !global && self.typed_tokens.len() > 0 {
                let last = self.typed_tokens[self.typed_tokens.len() - 1].lang_type();
                let raises = match vocab {
                    CompileVocab::KEYWORD(_) => false,
                    CompileVocab::MODULE(_) => false,
                    CompileVocab::BOUNDARY(_) => false,
                    CompileVocab::EXTENSION(_) => false,
                    CompileVocab::CLASS(_) => last != CompileVocab::KEYWORD(LBKeyword::Class),
                    CompileVocab::TYPE(_) => last != CompileVocab::KEYWORD(LBKeyword::Of),
                    CompileVocab::FUNCTION(_) => last != CompileVocab::KEYWORD(LBKeyword::Func),
                    _ => true,
                };
                if raises {
                    self.errors.push(ErrorStub::InvalidGlobalVariableDeclaration(typed_token.clone()));
                }
            }
        }
        if allow_global_scope_end(self.global_scope, *fs.char()) {
            self.global_scope = GlobalScopeMarker::NotGlobal;
        }
        if matches!(vocab, CompileVocab::CLASS(_)) {
            self.global_scope = GlobalScopeMarker::NotGlobal;
        }
        let ghost ttv = typed_token@;
        let ghost tb = bases(self.typed_tokens@);
        self.typed_tokens.push(typed_token);
        assert(bases(self.typed_tokens@) =~= tb.push(t));
        proof {
            assert(tokens_view(self.typed_tokens@) =~= st1.typed.push(ttv));
            let r = type_step(st0, tm, nm, natives@).unwrap();
            assert(ttv == read_token(tm, vocab, r.typed.last().scope, r.typed.last().global));
            assert(self.model().typed == r.typed);
            assert(self.model().type_map == r.type_map);
            assert(self.model().errors == r.errors);
            assert(self.model().global_scope == r.global_scope);
            assert(self.model().scope_value == r.scope_value);
        }
        true
    }

    /// Chooses the role of the name `ts` after one of the follower words.
    fn follower_role(&mut self, ts: &String) -> (v: CompileVocab)
        requires
            old(self).typed_tokens@.len() > 0,
            old(self).imports@.len() < u32::MAX,
            old(self).extensions@.len() < u32::MAX,
        ensures
            (v, final(self).model()) == follower_vocab(old(self).model(), ts@),
            final(self).type_map == old(self).type_map,
            final(self).typed_tokens == old(self).typed_tokens,
            final(self).scope_value == old(self).scope_value,
            final(self).brace_counter == old(self).brace_counter,
            final(self).imports@.len() <= old(self).imports@.len() + 1,
            final(self).extensions@.len() <= old(self).extensions@.len() + 1,
    {
        let last = self.typed_tokens[self.typed_tokens.len() - 1].lang_type();
        assert(last == old(self).model().typed.last().lang_type);
        proof {
            lemma_add_once(imports_view(self.imports@), (ts@, ts@, ImportType::File));
            lemma_add_once(strings_view(self.extensions@), ts@);
        }
        match last {
            CompileVocab::KEYWORD(LBKeyword::Using) => {
                if !(str_eq(ts.as_str(), "ext") || str_eq(ts.as_str(), "extension")) {
                    let index = add_import(&mut self.imports, ts, ts, ImportType::File);
                    CompileVocab::MODULE(index as u64)
                } else {
                    CompileVocab::EXTENSION(ExtensionType::ExtensionTypeImport(0))
                }
            },
            CompileVocab::KEYWORD(LBKeyword::Func) => CompileVocab::FUNCTION(FunctionType::Header),
            CompileVocab::KEYWORD(LBKeyword::Extension) => {
                self.global_scope = GlobalScopeMarker::ExtensionDeclaration;
                let index = add_extension(&mut self.extensions, ts);
                CompileVocab::EXTENSION(ExtensionType::ExtensionTypeExport(index as u32))
            },
            CompileVocab::KEYWORD(LBKeyword::Class) => CompileVocab::CLASS(LeBlancType::Class(0)),
            _ => CompileVocab::UNKNOWN(LeBlancType::Class(0)),
        }
    }
}


/// The values of a list of tokens.
pub open spec fn source_tokens(v: Seq<Token>) -> Seq<SourceToken> {
    v.map_values(|t: Token| source_token(t))
}

/// The tokens each typed token was made from, in order.
pub open spec fn bases(v: Seq<TypedToken>) -> Seq<Token> {
    v.map_values(|t: TypedToken| t.spec_base())
}

/// The tokens of a stack in the order the typing pass reads them: from the last one
/// back, without a first token that is the end token.
pub open spec fn read_order(v: Seq<Token>) -> Seq<Token> {
    let r = v.reverse();
    if r.len() > 0 && is_end_token(source_token(r.last())) {
        r.drop_last()
    } else {
        r
    }
}

/// Every token's text fits the machine's sizes.
pub open spec fn texts_fit(v: Seq<Token>) -> bool {
    forall|i: int| 0 <= i < v.len() ==> encode_utf8((#[trigger] v[i]).spec_string()).len() <= usize::MAX
}

/// Takes the last token off, or hands out the end token when there is none.
fn pop_or_end(tokens: &mut Vec<Token>) -> (r: Token)
    ensures
        old(tokens)@.len() == 0 ==> source_token(r) == end_token() && final(tokens)@ == old(tokens)@,
        old(tokens)@.len() > 0 ==> r == old(tokens)@.last() && final(tokens)@ == old(tokens)@.drop_last(),
{
    match tokens.pop() {
        Some(t) => t,
        None => {
            let t = Token::empty();
            assert(t.spec_symbols() =~= Seq::<Symbol>::empty());
            t
        },
    }
}

/// Whether a token is the end token.
fn is_end(t: &Token) -> (r: bool)
    ensures
        r == is_end_token(source_token(*t)),
{
    t.symbols().len() == 0 && t.line_number() == 0
}

/// The typing pass. The tokens are read from the last one back, as the lexer stacks
/// them; the pass stops early at a first token that is the end token.
pub fn type_tokens(tokens: Vec<Token>, errors: Vec<ErrorStub>, natives: &NativeTypes) -> (r: TokenTyper)
    requires
        tokens@.len() < i32::MAX - 2,
        texts_fit(tokens@),
        type_run(typer_start(errors_view(errors@)), source_tokens(tokens@).reverse(), natives@) is Some,
    ensures
        r.model() == type_run(
            typer_start(errors_view(errors@)),
            source_tokens(tokens@).reverse(),
            natives@,
        ).unwrap(),
        r.type_map.wf(),
        all_typed(tokens_view(r.typed_tokens@)),
        bases(r.typed_tokens@) == read_order(tokens@),
{
    let ghost start = typer_start(errors_view(errors@));
    let ghost rev0 = source_tokens(tokens@).reverse();
    let ghost n = tokens@.len();
    let mut typer = TokenTyper::new(errors);
    let mut tokens = tokens;
    let ghost all = tokens@;
    let ghost rev_all = all.reverse();
    let mut next_token = pop_or_end(&mut tokens);
    assert(bases(typer.typed_tokens@) =~= rev_all.take(0));
    let ghost mut k: int = 0;
    let ghost mut from_vec: bool = all.len() > 0;
    proof {
        if all.len() > 0 {
            assert(seq![source_token(next_token)] + source_tokens(tokens@).reverse() =~= rev0);
        } else {
            assert(rev0 =~= Seq::<SourceToken>::empty());
        }
    }
    while tokens.len() > 0 || !is_end(&next_token)
        invariant
            n < i32::MAX - 2,
            0 <= k,
            k + tokens@.len() + (if from_vec { 1int } else { 0int }) == n,
            !from_vec ==> is_end_token(source_token(next_token)) && tokens@.len() == 0,
            typer.bounded(k),
            texts_fit(tokens@),
            encode_utf8(next_token.spec_string()).len() <= usize::MAX,
            type_run(start, rev0, natives@) == type_run(
                typer.model(),
                seq![source_token(next_token)] + source_tokens(tokens@).reverse(),
                natives@,
            ),
            type_run(
                typer.model(),
                seq![source_token(next_token)] + source_tokens(tokens@).reverse(),
                natives@,
            ) is Some,
            rev_all == all.reverse(),
            all.len() == n,
            tokens@ == all.take(tokens@.len() as int),
            bases(typer.typed_tokens@) == rev_all.take(k),
            from_vec ==> next_token == rev_all[k],
            !from_vec && n > 0 ==> !is_end_token(source_token(rev_all[n - 1])),
        decreases 2 * tokens@.len() + (if is_end_token(source_token(next_token)) { 0int } else { 1int }),
    {
        let ghost rest = seq![source_token(next_token)] + source_tokens(tokens@).reverse();
        let ghost before = tokens@;
        let ghost m0 = typer.model();
        let token = next_token;
        assert(rest[0] == source_token(token));
        next_token = pop_or_end(&mut tokens);
        proof {
            if before.len() > 0 {
                assert(source_token(next_token) == rest[1]);
                assert(seq![source_token(next_token)] + source_tokens(tokens@).reverse() =~= rest.drop_first());
                assert(encode_utf8(next_token.spec_string()).len() <= usize::MAX) by {
                    assert(before[before.len() - 1] == next_token);
                }
            } else {
                assert(rest.len() == 1);
                assert(next_token.spec_symbols() =~= Seq::<Symbol>::empty());
                assert(chars_of(next_token.spec_symbols()) =~= Seq::<char>::empty());
            }
        }
        proof {
            let nx = if rest.len() > 1 { rest[1] } else { end_token() };
            assert(nx == source_token(next_token));
        }
        let ghost b0 = bases(typer.typed_tokens@);
        let ghost k0 = k;
        let ghost tok0 = token;
        assert(type_step(typer.model(), source_token(tok0), source_token(next_token), natives@) is Some);
        assert(step_ready(typer.model(), source_token(tok0), source_token(next_token), natives@));
        typer.type_token(token, &next_token, natives, Ghost(k));
        proof {
            assert(tok0 == rev_all[k0]) by {
                if !from_vec {
                    assert(false);
                }
            }
            assert(bases(typer.typed_tokens@) =~= rev_all.take(k0 + 1));
            if before.len() > 0 {
                assert(next_token == before.last());
                assert(before == all.take(before.len() as int));
                assert(rev_all[k0 + 1] == all[n - 1 - (k0 + 1)]);
                assert(tokens@ =~= all.take(tokens@.len() as int));
            }
            assert(type_run(m0, rest, natives@) == type_run(typer.model(), rest.drop_first(), natives@));
            k = k + 1;
            from_vec = before.len() > 0;
            if before.len() == 0 {
                let r2 = seq![source_token(next_token)] + source_tokens(tokens@).reverse();
                assert(r2.len() == 1);
                assert(rest.drop_first().len() == 0);
            }
        }
    }
    proof {
        let rest = seq![source_token(next_token)] + source_tokens(tokens@).reverse();
        assert(rest.len() == 1);
        if from_vec {
            assert(k == n - 1);
            assert(rev_all.take(k) =~= rev_all.drop_last());
        } else {
            assert(k == n);
            assert(rev_all.take(k) =~= rev_all);
        }
    }
    typer
}

/// The typing pass where it can be run: it cannot where a parenthesis stands first,
/// where a name is known in its scope with no role, where a word read as a constant
/// would have its last character cut in two, or where a token takes the class role before
/// the word `Class` was read. Gives `None` there, and what `type_tokens` gives elsewhere.
#[verifier::loop_isolation(false)]
pub fn try_type_tokens(tokens: Vec<Token>, errors: Vec<ErrorStub>, natives: &NativeTypes) -> (r: Option<TokenTyper>)
    requires
        tokens@.len() < i32::MAX - 2,
        texts_fit(tokens@),
    ensures
        r is Some <==> type_run(typer_start(errors_view(errors@)), source_tokens(tokens@).reverse(), natives@) is Some,
        r matches Some(ty) ==> ty.model() == type_run(
            typer_start(errors_view(errors@)),
            source_tokens(tokens@).reverse(),
            natives@,
        ).unwrap() && ty.type_map.wf() && all_typed(tokens_view(ty.typed_tokens@)) && bases(ty.typed_tokens@)
            == read_order(tokens@),
{
    let ghost start = typer_start(errors_view(errors@));
    let ghost rev0 = source_tokens(tokens@).reverse();
    let ghost n = tokens@.len();
    let mut typer = TokenTyper::new(errors);
    let mut tokens = tokens;
    let ghost all = tokens@;
    let ghost rev_all = all.reverse();
    let mut next_token = pop_or_end(&mut tokens);
    assert(bases(typer.typed_tokens@) =~= rev_all.take(0));
    let ghost mut k: int = 0;
    let ghost mut from_vec: bool = all.len() > 0;
    proof {
        if all.len() > 0 {
            assert(seq![source_token(next_token)] + source_tokens(tokens@).reverse() =~= rev0);
        } else {
            assert(rev0 =~= Seq::<SourceToken>::empty());
        }
    }
    while tokens.len() > 0 || !is_end(&next_token)
        invariant
            n < i32::MAX - 2,
            0 <= k,
            k + tokens@.len() + (if from_vec { 1int } else { 0int }) == n,
            !from_vec ==> is_end_token(source_token(next_token)) && tokens@.len() == 0,
            typer.bounded(k),
            texts_fit(tokens@),
            encode_utf8(next_token.spec_string()).len() <= usize::MAX,
            type_run(start, rev0, natives@) == type_run(
                typer.model(),
                seq![source_token(next_token)] + source_tokens(tokens@).reverse(),
                natives@,
            ),
            rev_all == all.reverse(),
            all.len() == n,
            tokens@ == all.take(tokens@.len() as int),
            bases(typer.typed_tokens@) == rev_all.take(k),
            from_vec ==> next_token == rev_all[k],
            !from_vec && n > 0 ==> !is_end_token(source_token(rev_all[n - 1])),
        decreases 2 * tokens@.len() + (if is_end_token(source_token(next_token)) { 0int } else { 1int }),
    {
        let ghost rest = seq![source_token(next_token)] + source_tokens(tokens@).reverse();
        let ghost before = tokens@;
        let ghost m0 = typer.model();
        let token = next_token;
        assert(rest[0] == source_token(token));
        next_token = pop_or_end(&mut tokens);
        proof {
            if before.len() > 0 {
                assert(source_token(next_token) == rest[1]);
                assert(seq![source_token(next_token)] + source_tokens(tokens@).reverse() =~= rest.drop_first());
                assert(encode_utf8(next_token.spec_string()).len() <= usize::MAX) by {
                    assert(before[before.len() - 1] == next_token);
                }
            } else {
                assert(rest.len() == 1);
                assert(next_token.spec_symbols() =~= Seq::<Symbol>::empty());
                assert(chars_of(next_token.spec_symbols()) =~= Seq::<char>::empty());
            }
        }
        proof {
            let nx = if rest.len() > 1 { rest[1] } else { end_token() };
            assert(nx == source_token(next_token));
        }
        let ghost b0 = bases(typer.typed_tokens@);
        let ghost k0 = k;
        let ghost tok0 = token;
        let ghost nx = if rest.len() > 1 { rest[1] } else { end_token() };
        assert(type_run(m0, rest, natives@) == match type_step(m0, source_token(tok0), nx, natives@) {
            None => None,
            Some(st2) => type_run(st2, rest.drop_first(), natives@),
        });
        let fs = token.first_symbol_or_empty();
        assert(fs == token_first(source_token(tok0)));
        assert(m0.typed.len() == typer.typed_tokens@.len());
        if (*fs.char() == '(' || *fs.char() == ')') && typer.typed_tokens.len() == 0 {
            assert(type_step(m0, source_token(tok0), nx, natives@) is None);
            return None;
        }
        let defined = typer.vocab_defined(&token, &next_token, natives);
        proof {
            lemma_vocab_ready_paren(m0, source_token(tok0), nx, natives@);
        }
        if !defined {
            assert(vocab_of(with_paren(m0, source_token(tok0)), source_token(tok0), nx, natives@) is None);
            assert(type_step(m0, source_token(tok0), nx, natives@) is None);
            return None;
        }
        let ok = typer.type_token(token, &next_token, natives, Ghost(k));
        if !ok {
            return None;
        }
        proof {
            assert(tok0 == rev_all[k0]) by {
                if !from_vec {
                    assert(false);
                }
            }
            assert(bases(typer.typed_tokens@) =~= rev_all.take(k0 + 1));
            if before.len() > 0 {
                assert(next_token == before.last());
                assert(before == all.take(before.len() as int));
                assert(rev_all[k0 + 1] == all[n - 1 - (k0 + 1)]);
                assert(tokens@ =~= all.take(tokens@.len() as int));
            }
            k = k + 1;
            from_vec = before.len() > 0;
            if before.len() == 0 {
                let r2 = seq![source_token(next_token)] + source_tokens(tokens@).reverse();
                assert(r2.len() == 1);
                assert(rest.drop_first().len() == 0);
            }
        }
    }
    proof {
        let rest = seq![source_token(next_token)] + source_tokens(tokens@).reverse();
        assert(rest.len() == 1);
        if from_vec {
            assert(k == n - 1);
            assert(rev_all.take(k) =~= rev_all.drop_last());
        } else {
            assert(k == n);
            assert(rev_all.take(k) =~= rev_all);
        }
    }
    Some(typer)
}


/// Types the tokens, gives the imports found their file names, then runs the
/// identification passes with the trees of the imported files and checks the syntax
/// rules: the token trees, the imports and the errors.
pub fn create_typed_tokens(
    tokens: Vec<Token>,
    errors: Vec<ErrorStub>,
    natives: &NativeTypes,
    import_tokens: Vec<Node>,
    func_matcher: FuncMatcher,
    mode: CompilationMode,
) -> (r: (Vec<Node>, Vec<Import>, Vec<ErrorStub>))
    requires
        tokens@.len() < i32::MAX - 2,
        texts_fit(tokens@),
        type_run(typer_start(errors_view(errors@)), source_tokens(tokens@).reverse(), natives@) is Some,
        func_matcher.wf(),
        signatures_complete(func_matcher@),
        import_headers_typed(forest_model(import_tokens@)),
        ({
            let m = type_run(typer_start(errors_view(errors@)), source_tokens(tokens@).reverse(), natives@).unwrap();
            let refs = identified_refs(m.typed, forest_model(import_tokens@), m.type_map, func_matcher@, m.errors);
            &&& lambdas_closed(refs)
            &&& forall|hs: Seq<usize>|
                #[trigger] anno_run(Seq::empty(), Seq::empty(), refs, hs) matches Some(t) ==> t.len() < i32::MAX
                    && caller_args(t) is Some && assignments_inside(
                    flatten_forest(ownership(caller_args(t)->0, mode == CompilationMode::StubFile)),
                )
        }),
    ensures
        ({
            let m = type_run(typer_start(errors_view(errors@)), source_tokens(tokens@).reverse(), natives@).unwrap();
            &&& r.1@.len() == m.imports.len()
            &&& forall|i: int|
                0 <= i < m.imports.len() ==> (#[trigger] r.1@[i]).name@ == m.imports[i].0 && r.1@[i].source@
                    == import_file(m.imports[i].1) && r.1@[i].import_type == m.imports[i].2
            &&& exists|hs: Seq<usize>|
                #[trigger] identified_forest(m, forest_model(import_tokens@), func_matcher@, mode, hs) matches Some(
                    f,
                ) && forest_model(r.0@) == f && errors_view(r.2@) == identified_headers(
                    m.typed,
                    m.type_map,
                    func_matcher@,
                    m.errors,
                ).errors + rule1_errors(m.open_parens) + rule1_errors(m.closed_parens) + rule2_errors(
                    flatten_forest(f),
                ) + rule3_errors(flatten_forest(f), flatten_forest(f).len() as int)
        }),
{
    let ghost tv = tokens@;
    let mut typer = type_tokens(tokens, errors, natives);
    let ghost m = typer.model();
    let ghost imps = typer.imports@;
    assert(typer.typed_tokens@.len() == bases(typer.typed_tokens@).len());
    assert(read_order(tv).len() <= tv.len());
    typer.fix_import_sources();
    proof {
        assert(typer.model().typed == m.typed);
        assert(typer.model().type_map == m.type_map);
        assert(typer.model().errors == m.errors);
        assert(typer.model().open_parens == m.open_parens);
        assert(typer.model().closed_parens == m.closed_parens);
        assert(imports_view(imps) == m.imports);
    }
    let ghost m2 = typer.model();
    let r = typer.identify_tokens(import_tokens, func_matcher, mode);
    proof {
        assert forall|hs: Seq<usize>|
            identified_forest(m2, forest_model(import_tokens@), func_matcher@, mode, hs) == identified_forest(
                m,
                forest_model(import_tokens@),
                func_matcher@,
                mode,
                hs,
            ) by {}
        assert forall|i: int| 0 <= i < m.imports.len() implies (#[trigger] r.1@[i]).name@ == m.imports[i].0
            && r.1@[i].source@ == import_file(m.imports[i].1) && r.1@[i].import_type == m.imports[i].2 by {
            assert(imports_view(imps)[i] == (imps[i].name@, imps[i].source@, imps[i].import_type));
        }
    }
    r
}

/// The file an import is read from: its source, with `.lb` added where it names no
/// extension.
pub open spec fn import_file(source: Seq<char>) -> Seq<char> {
    if source.contains('.') {
        source
    } else {
        source + ".lb"@
    }
}

/// Gives every import source without an extension the `.lb` extension.
fn fix_sources(imports: &mut Vec<Import>)
    ensures
        final(imports)@.len() == old(imports)@.len(),
        forall|i: int|
            0 <= i < old(imports)@.len() ==> (#[trigger] final(imports)@[i]).source@ == import_file(
                old(imports)@[i].source@,
            ) && final(imports)@[i].name@ == old(imports)@[i].name@ && final(imports)@[i].import_type
                == old(imports)@[i].import_type,
{
    let ghost old_imports = imports@;
    let mut i: usize = 0;
    while i < imports.len()
        invariant
            i <= imports.len(),
            imports@.len() == old_imports.len(),
            old_imports == old(imports)@,
            forall|j: int|
                0 <= j < i ==> (#[trigger] imports@[j]).source@ == import_file(old_imports[j].source@)
                    && imports@[j].name@ == old_imports[j].name@ && imports@[j].import_type
                    == old_imports[j].import_type,
            forall|j: int| i <= j < imports@.len() ==> #[trigger] imports@[j] == old_imports[j],
        decreases imports.len() - i,
    {
        if !crate::text::str_contains_char(imports[i].source.as_str(), '.') {
            let mut import = imports.remove(i);
            import.source.append(".lb");
            imports.insert(i, import);
        }
        i = i + 1;
    }
}

impl TokenTyper {
    /// Gives every import source without an extension the `.lb` extension.
    pub fn fix_import_sources(&mut self)
        ensures
            final(self).imports@.len() == old(self).imports@.len(),
            forall|i: int|
                0 <= i < old(self).imports@.len() ==> (#[trigger] final(self).imports@[i]).source@
                    == import_file(old(self).imports@[i].source@) && final(self).imports@[i].name@
                    == old(self).imports@[i].name@ && final(self).imports@[i].import_type == old(
                    self,
                ).imports@[i].import_type,
            final(self).typed_tokens == old(self).typed_tokens,
            final(self).type_map == old(self).type_map,
            final(self).errors == old(self).errors,
            final(self).analysis == old(self).analysis,
    {
        fix_sources(&mut self.imports);
    }
}


/// The trees the identification passes make of typed tokens, for the names `hs` of the
/// lifted lambdas; `None` where lifting fails.
pub open spec fn identified_forest(
    st: TyperModel,
    imports: Seq<TreeModel>,
    matcher: Map<(Seq<char>, crate::compiler::identifier::typed_token::RoleClass), Seq<Seq<LeBlancType>>>,
    mode: CompilationMode,
    hs: Seq<usize>,
) -> Option<Seq<TreeModel>> {
    match anno_run(
        Seq::empty(),
        Seq::empty(),
        identified_refs(st.typed, imports, st.type_map, matcher, st.errors),
        hs,
    ) {
        Some(t) => Some(ownership(caller_args(t)->0, mode == CompilationMode::StubFile)),
        None => None,
    }
}

impl TokenTyper {
    /// Runs the identification passes over the typed tokens with the trees of the
    /// imported files, then checks the syntax rules. Returns the token trees, the imports
    /// and the errors.
    pub fn identify_tokens(
        self,
        import_tokens: Vec<Node>,
        func_matcher: FuncMatcher,
        mode: CompilationMode,
    ) -> (r: (Vec<Node>, Vec<Import>, Vec<ErrorStub>))
        requires
            self.type_map.wf(),
            all_typed(tokens_view(self.typed_tokens@)),
            func_matcher.wf(),
            signatures_complete(func_matcher@),
            import_headers_typed(forest_model(import_tokens@)),
            self.typed_tokens@.len() < i64::MAX,
            lambdas_closed(
                identified_refs(
                    self.model().typed,
                    forest_model(import_tokens@),
                    self.model().type_map,
                    func_matcher@,
                    self.model().errors,
                ),
            ),
            forall|hs: Seq<usize>|
                #[trigger] anno_run(
                    Seq::empty(),
                    Seq::empty(),
                    identified_refs(
                        self.model().typed,
                        forest_model(import_tokens@),
                        self.model().type_map,
                        func_matcher@,
                        self.model().errors,
                    ),
                    hs,
                ) matches Some(t) ==> t.len() < i32::MAX && caller_args(t) is Some
                    && assignments_inside(
                    flatten_forest(ownership(caller_args(t)->0, mode == CompilationMode::StubFile)),
                ),
        ensures
            r.1@ == self.imports@,
            exists|hs: Seq<usize>|
                #[trigger] identified_forest(
                    self.model(),
                    forest_model(import_tokens@),
                    func_matcher@,
                    mode,
                    hs,
                ) matches Some(f) && forest_model(r.0@) == f && errors_view(r.2@)
                    == identified_headers(
                    self.model().typed,
                    self.model().type_map,
                    func_matcher@,
                    self.model().errors,
                ).errors + rule1_errors(self.model().open_parens) + rule1_errors(
                    self.model().closed_parens,
                ) + rule2_errors(flatten_forest(f)) + rule3_errors(
                    flatten_forest(f),
                    flatten_forest(f).len() as int,
                ),
    {
        let ghost m = self.model();
        let ghost imf = forest_model(import_tokens@);
        let TokenTyper { typed_tokens, imports, extensions: _, mut type_map, mut errors, analysis, .. } = self;
        let mut node_tokens = identify(typed_tokens, import_tokens, &mut type_map, func_matcher, &mut errors, mode);
        let ghost hs = choose|hs: Seq<usize>|
            #[trigger] anno_run(
                Seq::empty(),
                Seq::empty(),
                identified_refs(m.typed, imf, m.type_map, func_matcher@, m.errors),
                hs,
            ) matches Some(t) && forest_model(node_tokens@) == ownership(
                caller_args(t)->0,
                mode == CompilationMode::StubFile,
            );
        analysis.evaluate(&mut errors, &mut node_tokens);
        proof {
            assert(identified_forest(m, imf, func_matcher@, mode, hs) == Some(
                forest_model(node_tokens@),
            ));
        }
        (node_tokens, imports, errors)
    }
}


/// The tokens the typing pass reads of `rest`: all of them but a last end token.
pub open spec fn read_tokens(rest: Seq<SourceToken>) -> Seq<SourceToken> {
    if rest.len() > 0 && is_end_token(rest.last()) {
        rest.drop_last()
    } else {
        rest
    }
}

/// Typed tokens that carry the texts and lines of the tokens read, one for one.
pub open spec fn same_texts(typed: Seq<TypedTokenModel>, read: Seq<SourceToken>) -> bool {
    &&& typed.len() == read.len()
    &&& forall|i: int|
        0 <= i < read.len() ==> (#[trigger] typed[i]).token == token_text(read[i]) && typed[i].line_number
            == read[i].1
}

proof fn lemma_type_step_pushes(st: TyperModel, t: SourceToken, next: SourceToken, natives: Seq<(Seq<char>, LeBlancType)>)
    ensures
        type_step(st, t, next, natives) matches Some(st2) ==> st2.typed.len() == st.typed.len() + 1
            && st2.typed.drop_last() == st.typed && st2.typed.last().token == token_text(t)
            && st2.typed.last().line_number == t.1,
{
    let fs = token_first(t);
    if !((fs.ch() == '(' || fs.ch() == ')') && st.typed.len() == 0) {
        let stp = if fs.ch() == '(' {
            TyperModel {
                open_parens: st.open_parens.push(
                    ExtraTypeSymbol { symbol: fs, vocab: st.typed.last().lang_type },
                ),
                ..st
            }
        } else if fs.ch() == ')' {
            if st.open_parens.len() == 0 {
                TyperModel {
                    closed_parens: st.closed_parens.push(
                        ExtraTypeSymbol { symbol: fs, vocab: st.typed.last().lang_type },
                    ),
                    ..st
                }
            } else {
                TyperModel { open_parens: st.open_parens.drop_last(), ..st }
            }
        } else {
            st
        };
        match vocab_of(stp, t, next, natives) {
            Some((v0, st1)) => {
                assert(st1.typed == st.typed);
                if let Some(st2) = type_step(st, t, next, natives) {
                    assert(st2.typed.drop_last() =~= st.typed);
                }
            },
            None => {},
        }
    }
}

/// The typing pass types every token it reads, in order: the typed tokens carry the
/// texts and lines of the tokens read, and those typed before stay as they were.
pub proof fn typing_keeps_every_token(st: TyperModel, rest: Seq<SourceToken>, natives: Seq<(Seq<char>, LeBlancType)>)
    ensures
        type_run(st, rest, natives) matches Some(r) ==> r.typed.len() == st.typed.len() + read_tokens(
            rest,
        ).len() && r.typed.take(st.typed.len() as int) == st.typed && same_texts(
            r.typed.skip(st.typed.len() as int),
            read_tokens(rest),
        ),
    decreases rest.len(),
{
    if rest.len() == 0 || (rest.len() == 1 && is_end_token(rest[0])) {
        if let Some(r) = type_run(st, rest, natives) {
            assert(r.typed.take(st.typed.len() as int) =~= st.typed);
            assert(read_tokens(rest) =~= Seq::<SourceToken>::empty());
        }
    } else {
        let next = if rest.len() > 1 {
            rest[1]
        } else {
            end_token()
        };
        lemma_type_step_pushes(st, rest[0], next, natives);
        if let Some(st2) = type_step(st, rest[0], next, natives) {
            typing_keeps_every_token(st2, rest.drop_first(), natives);
            if let Some(r) = type_run(st2, rest.drop_first(), natives) {
                let n = st.typed.len() as int;
                assert(r.typed.take(n + 1) == st2.typed) by {
                    assert(r.typed.take(n + 1) =~= r.typed.take(st2.typed.len() as int));
                }
                assert(r.typed.take(n) =~= st.typed) by {
                    assert(r.typed.take(n) =~= r.typed.take(n + 1).take(n));
                    assert(st2.typed.take(n) =~= st2.typed.drop_last());
                }
                let rd = read_tokens(rest);
                let rd2 = read_tokens(rest.drop_first());
                assert(rd =~= seq![rest[0]] + rd2);
                let tail = r.typed.skip(n);
                assert forall|i: int| 0 <= i < rd.len() implies (#[trigger] tail[i]).token == token_text(rd[i])
                    && tail[i].line_number == rd[i].1 by {
                    if i == 0 {
                        assert(tail[0] == r.typed[n]);
                        assert(r.typed[n] == r.typed.take(n + 1)[n]);
                        assert(st2.typed[n] == st2.typed.last());
                    } else {
                        assert(tail[i] == r.typed.skip(n + 1)[i - 1]);
                    }
                }
            }
        }
    }
}

} // verus!
