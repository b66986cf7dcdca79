//! Syntax rules checked once a file has been read:
//! rule 1, every parenthesis that a function or a constructor opened is closed before
//! the next semicolon; rule 2, no name is left of unknown type; rule 3, a variable is
//! assigned a value of its own type.
use vstd::prelude::*;
use crate::compiler::identifier::typed_token::{TypedToken, TypedTokenModel, tokens_view};
use crate::compiler::lang::leblanc_lang::CompileVocab;
use crate::compiler::lang::leblanc_operators::LBOperator;
use crate::compiler::symbols::Symbol;
use crate::native_types::LeBlancType;
use crate::rustblanc::{
    ErrorStub,
    ErrorStubModel,
    Node,
    errors_view,
    flatmap_node_tokens,
    flatten_forest,
    forest_model,
};

verus! {

/// A parenthesis together with the role of the token before it.
#[derive(Clone, Copy, Debug, PartialEq, Eq)]
pub struct ExtraTypeSymbol {
    pub symbol: Symbol,
    pub vocab: CompileVocab,
}

impl ExtraTypeSymbol {
    pub fn new(symbol: Symbol, vocab: CompileVocab) -> (r: ExtraTypeSymbol)
        ensures
            r.symbol == symbol,
            r.vocab == vocab,
    {
        ExtraTypeSymbol { symbol, vocab }
    }
}

/// The parentheses still open, and those closed with none open.
pub struct RuleAnalyzer {
    pub open_parenthesis: Vec<ExtraTypeSymbol>,
    pub closed_parenthesis: Vec<ExtraTypeSymbol>,
}

/// A parenthesis that a function call or a constructor opened: rule 1 asks that it be
/// closed before the next semicolon.
pub open spec fn call_parenthesis(p: ExtraTypeSymbol) -> bool {
    p.vocab is FUNCTION || p.vocab is CONSTRUCTOR
}

/// The errors of rule 1 for a list of unbalanced parentheses, in order: one for each that
/// a function call or a constructor of any type opened.
pub open spec fn rule1_errors(s: Seq<ExtraTypeSymbol>) -> Seq<ErrorStubModel>
    decreases s.len(),
{
    if s.len() == 0 {
        Seq::empty()
    } else if call_parenthesis(s.last()) {
        rule1_errors(s.drop_last()).push(ErrorStubModel::ImbalancedDelimiter(s.last().symbol))
    } else {
        rule1_errors(s.drop_last())
    }
}

/// The errors of rule 2: one for every token of unknown, undeclared type, in order.
pub open spec fn rule2_errors(s: Seq<TypedTokenModel>) -> Seq<ErrorStubModel>
    decreases s.len(),
{
    if s.len() == 0 {
        Seq::empty()
    } else if s.last().lang_type == CompileVocab::UNKNOWN(LeBlancType::Class(0)) {
        rule2_errors(s.drop_last()).push(ErrorStubModel::UndeclaredVariable(s.last()))
    } else {
        rule2_errors(s.drop_last())
    }
}

/// Whether an assignment at `i` stores a value of another type into a variable.
pub open spec fn mistyped_assignment(s: Seq<TypedTokenModel>, i: int) -> bool {
    &&& s[i].lang_type == CompileVocab::OPERATOR(LBOperator::Assign)
    &&& s[i - 1].lang_type is VARIABLE
    &&& match s[i + 1].lang_type {
        CompileVocab::CONSTANT(t) => t != s[i - 1].lang_type->VARIABLE_0,
        CompileVocab::VARIABLE(t) => t != s[i - 1].lang_type->VARIABLE_0,
        CompileVocab::CONSTRUCTOR(t) => t != s[i - 1].lang_type->VARIABLE_0,
        _ => false,
    }
}

/// The errors of rule 3 among the first `n` tokens of `s`, in order.
pub open spec fn rule3_errors(s: Seq<TypedTokenModel>, n: int) -> Seq<ErrorStubModel>
    decreases n,
{
    if n <= 0 {
        Seq::empty()
    } else if mistyped_assignment(s, n - 1) {
        rule3_errors(s, n - 1).push(ErrorStubModel::IncompatibleType(s[n - 2]))
    } else {
        rule3_errors(s, n - 1)
    }
}

/// No assignment stands first or last, where rule 3 could not see both its sides.
pub open spec fn assignments_inside(s: Seq<TypedTokenModel>) -> bool {
    forall|i: int|
        0 <= i < s.len() && #[trigger] s[i].lang_type == CompileVocab::OPERATOR(LBOperator::Assign)
            ==> 0 < i < s.len() - 1
}

impl RuleAnalyzer {
    pub fn new() -> (r: RuleAnalyzer)
        ensures
            r.open_parenthesis@ == Seq::<ExtraTypeSymbol>::empty(),
            r.closed_parenthesis@ == Seq::<ExtraTypeSymbol>::empty(),
    {
        RuleAnalyzer { open_parenthesis: Vec::new(), closed_parenthesis: Vec::new() }
    }

    /// Records a parenthesis: an opening one is pushed; a closing one pops the last
    /// open one, and is remembered as unbalanced when none is open.
    pub fn add_parenthesis(&mut self, symbol: Symbol, vocab: CompileVocab)
        ensures
            symbol.ch() == '(' ==> final(self).open_parenthesis@ == old(
                self,
            ).open_parenthesis@.push(ExtraTypeSymbol { symbol, vocab })
                && final(self).closed_parenthesis@ == old(self).closed_parenthesis@,
            symbol.ch() == ')' ==> final(self).open_parenthesis@ == (if old(
                self,
            ).open_parenthesis@.len() == 0 {
                old(self).open_parenthesis@
            } else {
                old(self).open_parenthesis@.drop_last()
            }) && final(self).closed_parenthesis@ == (if old(self).open_parenthesis@.len() == 0 {
                old(self).closed_parenthesis@.push(ExtraTypeSymbol { symbol, vocab })
            } else {
                old(self).closed_parenthesis@
            }),
            symbol.ch() != '(' && symbol.ch() != ')' ==> final(self).open_parenthesis@ == old(
                self,
            ).open_parenthesis@ && final(self).closed_parenthesis@ == old(
                self,
            ).closed_parenthesis@,
    {
        let ets = ExtraTypeSymbol::new(symbol, vocab);
        let c = *symbol.char();
        if c == '(' {
            self.open_parenthesis.push(ets)
        } else if c == ')' {
            if self.open_parenthesis.len() == 0 {
                self.closed_parenthesis.push(ets)
            }
            self.open_parenthesis.pop();
        }
    }

    /// Appends the errors of rule 1: one for each parenthesis a function or a constructor
    /// opened that is still open, then one for each such closing parenthesis that had no
    /// opener.
    pub fn evaluate_rule1(&self, errors: &mut Vec<ErrorStub>)
        ensures
            errors_view(final(errors)@) == errors_view(old(errors)@) + rule1_errors(
                self.open_parenthesis@,
            ) + rule1_errors(self.closed_parenthesis@),
    {
        append_rule1(&self.open_parenthesis, errors);
        append_rule1(&self.closed_parenthesis, errors);
    }

    /// Appends an error for every token of unknown type.
    pub fn evaluate_rule2(&self, errors: &mut Vec<ErrorStub>, tokens: &mut Vec<TypedToken>)
        ensures
            errors_view(final(errors)@) == errors_view(old(errors)@) + rule2_errors(
                tokens_view(old(tokens)@),
            ),
            final(tokens)@ == old(tokens)@,
    {
        let mut i: usize = 0;
        while i < tokens.len()
            invariant
                i <= tokens@.len(),
                tokens@ == old(tokens)@,
                errors_view(errors@) == errors_view(old(errors)@) + rule2_errors(
                    tokens_view(tokens@).subrange(0, i as int),
                ),
            decreases tokens@.len() - i,
        {
            let ghost before = errors@;
            let ghost s = tokens_view(tokens@).subrange(0, i + 1);
            assert(s.drop_last() =~= tokens_view(tokens@).subrange(0, i as int));
            if tokens[i].lang_type() == CompileVocab::UNKNOWN(LeBlancType::Class(0)) {
                errors.push(ErrorStub::UndeclaredVariable(tokens[i].clone()));
                assert(errors_view(errors@) =~= errors_view(before).push(
                    ErrorStubModel::UndeclaredVariable(s.last()),
                ));
            }
            i = i + 1;
        }
        assert(tokens_view(tokens@).subrange(0, tokens@.len() as int) =~= tokens_view(tokens@));
    }

    /// Appends an error for every assignment of a value of another type to a variable.
    pub fn evaluate_rule3(&self, errors: &mut Vec<ErrorStub>, tokens: &mut Vec<TypedToken>)
        requires
            assignments_inside(tokens_view(old(tokens)@)),
        ensures
            errors_view(final(errors)@) == errors_view(old(errors)@) + rule3_errors(
                tokens_view(old(tokens)@),
                old(tokens)@.len() as int,
            ),
            final(tokens)@ == old(tokens)@,
    {
        let ghost s = tokens_view(tokens@);
        let mut i: usize = 0;
        while i < tokens.len()
            invariant
                i <= tokens@.len(),
                tokens@ == old(tokens)@,
                s == tokens_view(tokens@),
                assignments_inside(s),
                errors_view(errors@) == errors_view(old(errors)@) + rule3_errors(s, i as int),
            decreases tokens@.len() - i,
        {
            let ghost before = errors@;
            if tokens[i].lang_type() == CompileVocab::OPERATOR(LBOperator::Assign) {
                assert(s[i as int].lang_type == CompileVocab::OPERATOR(LBOperator::Assign));
                let prior_token = &tokens[i - 1];
                let next_token = &tokens[i + 1];
                if let CompileVocab::VARIABLE(match_type) = prior_token.lang_type() {
                    let mismatch = match next_token.lang_type() {
                        CompileVocab::CONSTANT(token_type) => match_type != token_type,
                        CompileVocab::VARIABLE(token_type) => match_type != token_type,
                        CompileVocab::CONSTRUCTOR(token_type) => match_type != token_type,
                        _ => false,
                    };
                    if mismatch {
                        errors.push(ErrorStub::IncompatibleType(prior_token.clone()));
                        assert(errors_view(errors@) =~= errors_view(before).push(
                            ErrorStubModel::IncompatibleType(s[i - 1]),
                        ));
                    }
                }
            }
            i = i + 1;
        }
    }

    /// Checks the three rules over a forest of tokens read in pre-order.
    pub fn evaluate(&self, errors: &mut Vec<ErrorStub>, tokens: &mut Vec<Node>)
        requires
            assignments_inside(flatten_forest(forest_model(old(tokens)@))),
        ensures
            errors_view(final(errors)@) == errors_view(old(errors)@) + rule1_errors(
                self.open_parenthesis@,
            ) + rule1_errors(self.closed_parenthesis@) + rule2_errors(
                flatten_forest(forest_model(old(tokens)@)),
            ) + rule3_errors(
                flatten_forest(forest_model(old(tokens)@)),
                flatten_forest(forest_model(old(tokens)@)).len() as int,
            ),
            final(tokens)@ == old(tokens)@,
    {
        self.evaluate_rule1(errors);
        let mut flat = flatmap_node_tokens(tokens);
        self.evaluate_rule2(errors, &mut flat);
        let mut flat2 = flatmap_node_tokens(tokens);
        assert(tokens_view(flat2@).len() == flat2@.len());
        self.evaluate_rule3(errors, &mut flat2);
    }
}

/// Appends the errors of rule 1 for one list of parentheses.
fn append_rule1(parens: &Vec<ExtraTypeSymbol>, errors: &mut Vec<ErrorStub>)
    ensures
        errors_view(final(errors)@) == errors_view(old(errors)@) + rule1_errors(parens@),
{
    let mut i: usize = 0;
    while i < parens.len()
        invariant
            i <= parens@.len(),
            errors_view(errors@) == errors_view(old(errors)@) + rule1_errors(
                parens@.subrange(0, i as int),
            ),
        decreases parens@.len() - i,
    {
        let ghost before = errors@;
        let p = parens[i];
        assert(parens@.subrange(0, i + 1).drop_last() =~= parens@.subrange(0, i as int));
        let of_call = match p.vocab {
            CompileVocab::FUNCTION(_) => true,
            CompileVocab::CONSTRUCTOR(_) => true,
            _ => false,
        };
        if of_call {
            errors.push(ErrorStub::ImbalancedDelimiter(p.symbol));
            assert(errors_view(errors@) =~= errors_view(before).push(
                ErrorStubModel::ImbalancedDelimiter(p.symbol),
            ));
        }
        i = i + 1;
    }
    assert(parens@.subrange(0, parens@.len() as int) =~= parens@);
}


/// The errors rule 3 finds among fewer tokens come first, in the same order, among more.
proof fn lemma_rule3_prefix(s: Seq<TypedTokenModel>, m: int, n: int)
    requires
        0 <= m <= n,
    ensures
        rule3_errors(s, m).len() <= rule3_errors(s, n).len(),
        forall|k: int| 0 <= k < rule3_errors(s, m).len() ==> rule3_errors(s, n)[k] == #[trigger] rule3_errors(s, m)[k],
    decreases n - m,
{
    if m < n {
        lemma_rule3_prefix(s, m, n - 1);
    }
}

/// Rule 3 reports every assignment of a value of another type to a variable: where a
/// variable of type `t` is assigned a variable, a constant or a constructed value of a
/// type `u` other than `t`, an incompatible-type error names the variable.
pub proof fn rule3_reports_mistyped_assignments(s: Seq<TypedTokenModel>, i: int, t: LeBlancType, u: LeBlancType)
    requires
        0 < i < s.len() - 1,
        s[i].lang_type == CompileVocab::OPERATOR(LBOperator::Assign),
        s[i - 1].lang_type == CompileVocab::VARIABLE(t),
        s[i + 1].lang_type == CompileVocab::VARIABLE(u) || s[i + 1].lang_type == CompileVocab::CONSTANT(u)
            || s[i + 1].lang_type == CompileVocab::CONSTRUCTOR(u),
        u != t,
    ensures
        rule3_errors(s, s.len() as int).contains(ErrorStubModel::IncompatibleType(s[i - 1])),
{
    let before = rule3_errors(s, i);
    let at = rule3_errors(s, i + 1);
    assert(at == before.push(ErrorStubModel::IncompatibleType(s[i - 1])));
    lemma_rule3_prefix(s, i + 1, s.len() as int);
    let k = before.len() as int;
    assert(at[k] == ErrorStubModel::IncompatibleType(s[i - 1]));
    assert(rule3_errors(s, s.len() as int)[k] == at[k]);
}

/// Rule 3 reports nothing else: every error it reports names a variable that is
/// assigned a variable, a constant or a constructed value of another type.
pub proof fn rule3_reports_only_mistyped_assignments(s: Seq<TypedTokenModel>, n: int, k: int)
    requires
        0 <= n <= s.len(),
        assignments_inside(s),
        0 <= k < rule3_errors(s, n).len(),
    ensures
        exists|i: int|
            0 < i < s.len() - 1 && s[i].lang_type == CompileVocab::OPERATOR(LBOperator::Assign)
                && rule3_errors(s, n)[k] == ErrorStubModel::IncompatibleType(#[trigger] s[i - 1])
                && (s[i - 1].lang_type matches CompileVocab::VARIABLE(t) && (s[i + 1].lang_type is VARIABLE
                || s[i + 1].lang_type is CONSTANT || s[i + 1].lang_type is CONSTRUCTOR) && !(s[i + 1].lang_type
                == CompileVocab::VARIABLE(t) || s[i + 1].lang_type == CompileVocab::CONSTANT(t)
                || s[i + 1].lang_type == CompileVocab::CONSTRUCTOR(t))),
    decreases n,
{
    if n > 0 {
        if k < rule3_errors(s, n - 1).len() {
            rule3_reports_only_mistyped_assignments(s, n - 1, k);
        } else {
            let i = n - 1;
            assert(mistyped_assignment(s, i));
            assert(s[i].lang_type == CompileVocab::OPERATOR(LBOperator::Assign));
            assert(0 < i < s.len() - 1);
            assert(rule3_errors(s, n)[k] == ErrorStubModel::IncompatibleType(s[i - 1]));
        }
    }
}

} // verus!
