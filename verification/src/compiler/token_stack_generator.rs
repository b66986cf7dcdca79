//! Turns nested token trees into the flat stack that the code generator reads: the
//! token that binds least is pushed first, then the tokens on either side of it.
use vstd::prelude::*;
use crate::compiler::identifier::typed_token::{TypedToken, TypedTokenModel, tokens_view};
use crate::compiler::identifier::token_identifier::root;
use crate::compiler::lang::leblanc_keywords::LBKeyword;
use crate::compiler::lang::leblanc_lang::{BoundaryType, CompileVocab, FunctionType, Specials, spec_priority};
use crate::compiler::lang::leblanc_operators::LBOperator;
use crate::rustblanc::{Node, TreeModel, forest_model};

verus! {

/// The trees nested under a tree's root.
pub open spec fn children(t: TreeModel) -> Seq<TreeModel> {
    match t {
        TreeModel::Branch(_, c) => c,
    }
}

/// The number of tokens of a tree.
pub open spec fn tree_size(t: TreeModel) -> nat
    decreases t,
{
    match t {
        TreeModel::Branch(_, c) => 1 + forest_size(c),
    }
}

/// The number of tokens of a forest.
pub open spec fn forest_size(f: Seq<TreeModel>) -> nat
    decreases f,
{
    if f.len() == 0 {
        0
    } else {
        forest_size(f.drop_last()) + tree_size(f.last())
    }
}

pub proof fn lemma_forest_size_concat(a: Seq<TreeModel>, b: Seq<TreeModel>)
    ensures
        forest_size(a + b) == forest_size(a) + forest_size(b),
    decreases b.len(),
{
    if b.len() == 0 {
        assert(a + b =~= a);
    } else {
        lemma_forest_size_concat(a, b.drop_last());
        assert((a + b).drop_last() =~= a + b.drop_last());
        assert((a + b).last() == b.last());
    }
}

/// Sizes of the parts a step of the stack builder splits a forest into.
pub proof fn lemma_forest_size_split(f: Seq<TreeModel>, m: int)
    requires
        0 <= m < f.len(),
    ensures
        forest_size(f) == forest_size(f.remove(m)) + tree_size(f[m]),
        tree_size(f[m]) == 1 + forest_size(children(f[m])),
        forall|k: int|
            0 <= k <= f.remove(m).len() ==> forest_size(#[trigger] f.remove(m).take(k)) + forest_size(
                f.remove(m).skip(k),
            ) == forest_size(f.remove(m)),
{
    lemma_forest_size_concat(f.take(m), f.skip(m + 1));
    lemma_forest_size_concat(f.take(m), f.skip(m));
    lemma_forest_size_concat(seq![f[m]], f.skip(m + 1));
    assert(f.remove(m) =~= f.take(m) + f.skip(m + 1));
    assert(f =~= f.take(m) + f.skip(m));
    assert(f.skip(m) =~= seq![f[m]] + f.skip(m + 1));
    assert(seq![f[m]].drop_last() =~= Seq::<TreeModel>::empty());
    assert(forest_size(Seq::<TreeModel>::empty()) == 0);
    assert(seq![f[m]].last() == f[m]);
    assert(forest_size(seq![f[m]]) == tree_size(f[m]));
    let r = f.remove(m);
    assert forall|k: int| 0 <= k <= r.len() implies forest_size(#[trigger] r.take(k)) + forest_size(
        r.skip(k),
    ) == forest_size(r) by {
        lemma_forest_size_concat(r.take(k), r.skip(k));
        assert(r =~= r.take(k) + r.skip(k));
    }
}

/// The index of the token a step of the stack builder takes, scanning back from
/// position `i` to the nearest comma: the token of least priority, the later one where
/// two tie. `best` is the choice so far.
pub open spec fn marker_from(f: Seq<TreeModel>, i: int, best: int) -> int
    decreases i + 1,
{
    if i < 0 {
        best
    } else if root(f[i]).lang_type == CompileVocab::BOUNDARY(BoundaryType::Comma) {
        best
    } else if spec_priority(root(f[i]).lang_type) < spec_priority(root(f[best]).lang_type) {
        marker_from(f, i - 1, i)
    } else {
        marker_from(f, i - 1, best)
    }
}

/// The index of the token the next step of the stack builder takes.
pub open spec fn stack_marker(f: Seq<TreeModel>) -> int {
    marker_from(f, f.len() - 1, f.len() - 1)
}

pub proof fn lemma_marker_from_range(f: Seq<TreeModel>, i: int, best: int)
    requires
        -1 <= i < f.len(),
        i < best < f.len(),
    ensures
        0 <= marker_from(f, i, best) < f.len(),
    decreases i + 1,
{
    if i >= 0 && root(f[i]).lang_type != CompileVocab::BOUNDARY(BoundaryType::Comma) {
        if spec_priority(root(f[i]).lang_type) < spec_priority(root(f[best]).lang_type) {
            lemma_marker_from_range(f, i - 1, i);
        } else {
            lemma_marker_from_range(f, i - 1, best);
        }
    }
}

proof fn lemma_marker_from_least(f: Seq<TreeModel>, i: int, best: int)
    requires
        -1 <= i <= best < f.len(),
        0 <= best,
        forall|k: int| i < k < f.len() ==> root(#[trigger] f[k]).lang_type != CompileVocab::BOUNDARY(BoundaryType::Comma),
        forall|j: int| best < j < f.len() ==> spec_priority(root(#[trigger] f[j]).lang_type) > spec_priority(root(f[best]).lang_type),
        forall|j: int| i < j < best ==> spec_priority(root(#[trigger] f[j]).lang_type) >= spec_priority(root(f[best]).lang_type),
    ensures
        ({
            let m = marker_from(f, i, best);
            &&& 0 <= m <= best
            &&& forall|j: int| m < j < f.len() ==> spec_priority(root(#[trigger] f[j]).lang_type) > spec_priority(root(f[m]).lang_type)
            &&& forall|j: int|
                0 <= j < m && (forall|k: int| j <= k < f.len() ==> root(#[trigger] f[k]).lang_type != CompileVocab::BOUNDARY(BoundaryType::Comma))
                    ==> spec_priority(root(#[trigger] f[j]).lang_type) >= spec_priority(root(f[m]).lang_type)
        }),
    decreases i + 1,
{
    if i < 0 {
    } else if root(f[i]).lang_type == CompileVocab::BOUNDARY(BoundaryType::Comma) {
        assert forall|j: int|
            0 <= j < best && (forall|k: int| j <= k < f.len() ==> root(#[trigger] f[k]).lang_type != CompileVocab::BOUNDARY(BoundaryType::Comma))
                implies spec_priority(root(#[trigger] f[j]).lang_type) >= spec_priority(root(f[best]).lang_type) by {
            if j <= i {
                assert(root(f[i]).lang_type != CompileVocab::BOUNDARY(BoundaryType::Comma));
            }
        }
    } else if spec_priority(root(f[i]).lang_type) < spec_priority(root(f[best]).lang_type) {
        lemma_marker_from_least(f, i - 1, i);
    } else {
        lemma_marker_from_least(f, i - 1, best);
    }
}

/// The token a step of the stack builder takes is, among the tokens after the last comma
/// (the last token itself where it is a comma), one of least priority, and the latest of
/// those: every token after it has a strictly greater priority, every token before it up
/// to the comma a priority at least as great. So a chain of operators of equal priority
/// is split at its last operator, and groups to the left.
pub proof fn marker_is_the_last_of_least_priority(f: Seq<TreeModel>)
    requires
        f.len() > 0,
    ensures
        0 <= stack_marker(f) < f.len(),
        forall|j: int|
            stack_marker(f) < j < f.len() ==> spec_priority(root(#[trigger] f[j]).lang_type) > spec_priority(
                root(f[stack_marker(f)]).lang_type,
            ),
        forall|j: int|
            0 <= j < stack_marker(f) && (forall|k: int| j <= k < f.len() ==> root(#[trigger] f[k]).lang_type
                != CompileVocab::BOUNDARY(BoundaryType::Comma)) ==> spec_priority(root(#[trigger] f[j]).lang_type)
                >= spec_priority(root(f[stack_marker(f)]).lang_type),
{
    lemma_marker_from_least(f, f.len() - 1, f.len() - 1);
}

/// The stack built from a forest, pushed on top of `stack`; `None` where a function call
/// lacks its argument group or a `while` leaves fewer than two tokens to rotate.
///
/// One step takes the marker token. A parenthesis group is replaced by its contents; a
/// bracket group stacks its contents and then itself; a keyword goes first and takes all
/// that follows it, and a `while` then swaps the first and last tokens of the stack. Any
/// other token is pushed; an operator then takes the tokens before it and after it (a
/// quick list those after it first, an increment neither); a function call takes the
/// contents of the group that follows it; a stack append takes the tokens after it, then
/// those before it.
pub open spec fn stack_run(f: Seq<TreeModel>, stack: Seq<TypedTokenModel>) -> Option<Seq<TypedTokenModel>>
    decreases forest_size(f),
{
    if f.len() == 0 {
        Some(stack)
    } else {
        let m = stack_marker(f);
        proof {
            lemma_marker_from_range(f, f.len() - 2, f.len() - 1);
            lemma_forest_size_split(f, m);
        }
        let c = f[m];
        let v = root(c);
        let rest = f.remove(m);
        if v.lang_type == CompileVocab::BOUNDARY(BoundaryType::ParenthesisOpen) {
            match stack_run(children(c), stack) {
                None => None,
                Some(s1) => stack_run(rest, s1),
            }
        } else if v.lang_type == CompileVocab::BOUNDARY(BoundaryType::BracketOpen) {
            match stack_run(children(c), stack) {
                None => None,
                Some(s1) => stack_run(rest, s1.push(v)),
            }
        } else if v.lang_type is KEYWORD {
            match stack_run(rest, stack.push(v)) {
                None => None,
                Some(s1) => if v.lang_type == CompileVocab::KEYWORD(LBKeyword::While) {
                    if s1.len() >= 2 {
                        Some(seq![s1.last()] + s1.subrange(1, s1.len() - 1) + seq![s1[0]])
                    } else {
                        None
                    }
                } else {
                    Some(s1)
                },
            }
        } else if v.lang_type is OPERATOR {
            let s0 = stack.push(v);
            if v.lang_type == CompileVocab::OPERATOR(LBOperator::QuickList) {
                match stack_run(rest.skip(m), s0) {
                    None => None,
                    Some(s1) => stack_run(rest.take(m), s1),
                }
            } else if v.lang_type == CompileVocab::OPERATOR(LBOperator::Increment) {
                stack_run(rest, s0)
            } else {
                match stack_run(rest.take(m), s0) {
                    None => None,
                    Some(s1) => stack_run(rest.skip(m), s1),
                }
            }
        } else if v.lang_type is FUNCTION && v.lang_type != CompileVocab::FUNCTION(
            FunctionType::Reference,
        ) {
            if m < rest.len() {
                proof {
                    lemma_forest_size_split(rest, m);
                }
                match stack_run(children(rest[m]), stack.push(v)) {
                    None => None,
                    Some(s1) => stack_run(rest.remove(m), s1),
                }
            } else {
                None
            }
        } else if v.lang_type == CompileVocab::SPECIAL(Specials::StackAppend, 0) {
            match stack_run(rest.skip(m), stack.push(v)) {
                None => None,
                Some(s1) => stack_run(rest.take(m), s1),
            }
        } else {
            stack_run(rest, stack.push(v))
        }
    }
}


/// Finds the index of the token the next step of the stack builder takes.
fn find_marker(tokens: &Vec<Node>) -> (m: usize)
    requires
        tokens.len() > 0,
    ensures
        m == stack_marker(forest_model(tokens@)),
        m < tokens.len(),
{
    let ghost f = forest_model(tokens@);
    let n = tokens.len();
    let mut marker: usize = n - 1;
    let mut i: usize = n;
    proof {
        lemma_marker_from_range(f, n - 2, n - 1);
    }
    while i > 0
        invariant_except_break
            stack_marker(f) == marker_from(f, i - 1, marker as int),
        invariant
            f == forest_model(tokens@),
            n == tokens.len(),
            i <= n,
            marker < n,
            i <= marker + 1,
        ensures
            stack_marker(f) == marker as int,
        decreases i,
    {
        i = i - 1;
        assert(f[i as int] == tokens@[i as int].model());
        assert(f[marker as int] == tokens@[marker as int].model());
        let comp = tokens[i].value.lang_type();
        if comp == CompileVocab::BOUNDARY(BoundaryType::Comma) {
            assert(marker_from(f, i as int, marker as int) == marker as int);
            break;
        }
        if comp.priority() < tokens[marker].value.lang_type().priority() {
            marker = i;
        }
    }
    marker
}

proof fn lemma_model_children(n: Node)
    ensures
        children(n.model()) == forest_model(n.children@),
        root(n.model()) == n.value@,
{
    assert(children(n.model()) =~= forest_model(n.children@));
}

/// Splits off the first `m` trees: `tokens` keeps the rest.
fn split_front(tokens: &mut Vec<Node>, m: usize) -> (r: Vec<Node>)
    requires
        m <= old(tokens).len(),
    ensures
        forest_model(r@) == forest_model(old(tokens)@).take(m as int),
        forest_model(final(tokens)@) == forest_model(old(tokens)@).skip(m as int),
{
    let mut prefix = tokens.split_off(m);
    std::mem::swap(&mut prefix, tokens);
    assert(forest_model(prefix@) =~= forest_model(old(tokens)@).take(m as int));
    assert(forest_model(tokens@) =~= forest_model(old(tokens)@).skip(m as int));
    prefix
}

/// Builds the stack of a forest on top of `stack`, consuming the forest. Tells whether
/// the forest has a stack; where it has none, what the forest and the stack are left
/// holding is not said.
fn build_stack(tokens: &mut Vec<Node>, stack: &mut Vec<TypedToken>) -> (ok: bool)
    ensures
        ok == stack_run(forest_model(old(tokens)@), tokens_view(old(stack)@)) is Some,
        ok ==> tokens_view(final(stack)@) == stack_run(
            forest_model(old(tokens)@),
            tokens_view(old(stack)@),
        ).unwrap(),
        ok ==> final(tokens)@.len() == 0,
    decreases forest_size(forest_model(old(tokens)@)),
{
    let ghost f0 = forest_model(tokens@);
    let ghost s0 = tokens_view(stack@);
    loop
        invariant
            stack_run(f0, s0) == stack_run(forest_model(tokens@), tokens_view(stack@)),
            forest_size(forest_model(tokens@)) <= forest_size(f0),
            f0 == forest_model(old(tokens)@),
            s0 == tokens_view(old(stack)@),
        decreases forest_size(forest_model(tokens@)),
    {
        if tokens.len() == 0 {
            assert(forest_model(tokens@) =~= Seq::<TreeModel>::empty());
            return true;
        }
        let ghost f = forest_model(tokens@);
        let ghost st = tokens_view(stack@);
        let marker = find_marker(tokens);
        proof {
            lemma_forest_size_split(f, marker as int);
        }
        let ghost c = f[marker as int];
        let ghost rest = f.remove(marker as int);
        let consumed = tokens.remove(marker);
        assert(forest_model(tokens@) =~= rest);
        proof {
            lemma_model_children(consumed);
        }
        let Node { value, children } = consumed;
        let mut children = children;
        let lt = value.lang_type();
        if lt == CompileVocab::BOUNDARY(BoundaryType::ParenthesisOpen) {
            if !build_stack(&mut children, stack) {
                return false;
            }
        } else if lt == CompileVocab::BOUNDARY(BoundaryType::BracketOpen) {
            if !build_stack(&mut children, stack) {
                return false;
            }
            let ghost before = tokens_view(stack@);
            stack.push(value);
            assert(tokens_view(stack@) =~= before.push(root(c)));
        } else if let CompileVocab::KEYWORD(keyword) = lt {
            let ghost before = tokens_view(stack@);
            stack.push(value);
            assert(tokens_view(stack@) =~= before.push(root(c)));
            if !build_stack(tokens, stack) {
                return false;
            }
            if keyword == LBKeyword::While {
                if stack.len() < 2 {
                    return false;
                }
                let ghost s1 = tokens_view(stack@);
                let top = stack.remove(0);
                let bottom = stack.pop().unwrap();
                stack.insert(0, bottom);
                stack.push(top);
                assert(tokens_view(stack@) =~= seq![s1.last()] + s1.subrange(1, s1.len() - 1) + seq![s1[0]]);
            }
            return true;
        } else {
            let ghost before = tokens_view(stack@);
            stack.push(value);
            assert(tokens_view(stack@) =~= before.push(root(c)));
            if let CompileVocab::OPERATOR(op) = lt {
                if op == LBOperator::QuickList {
                    let mut other = split_front(tokens, marker);
                    if !build_stack(tokens, stack) {
                        return false;
                    }
                    return build_stack(&mut other, stack);
                } else if op == LBOperator::Increment {
                } else {
                    let mut prefix = split_front(tokens, marker);
                    if !build_stack(&mut prefix, stack) {
                        return false;
                    }
                    return build_stack(tokens, stack);
                }
            } else if matches!(lt, CompileVocab::FUNCTION(_)) && lt != CompileVocab::FUNCTION(FunctionType::Reference) {
                if marker >= tokens.len() {
                    return false;
                }
                proof {
                    lemma_forest_size_split(rest, marker as int);
                }
                let next = tokens.remove(marker);
                assert(forest_model(tokens@) =~= rest.remove(marker as int));
                proof {
                    lemma_model_children(next);
                }
                let Node { value: _, children: group } = next;
                let mut group = group;
                if !build_stack(&mut group, stack) {
                    return false;
                }
            } else if lt == CompileVocab::SPECIAL(Specials::StackAppend, 0) {
                let mut other = split_front(tokens, marker);
                if !build_stack(tokens, stack) {
                    return false;
                }
                return build_stack(&mut other, stack);
            }
        }
    }
}

/// Builds the stack of a forest on top of `stack`, consuming the forest, and hands the
/// stack back.
pub fn create_stack<'a>(tokens: &mut Vec<Node>, stack: &'a mut Vec<TypedToken>) -> (r: &'a mut Vec<TypedToken>)
    requires
        stack_run(forest_model(old(tokens)@), tokens_view(old(stack)@)) is Some,
    ensures
        tokens_view(r@) == stack_run(forest_model(old(tokens)@), tokens_view(old(stack)@)).unwrap(),
        final(stack)@ == final(r)@,
        final(tokens)@.len() == 0,
{
    build_stack(tokens, stack);
    stack
}

/// Builds the stack of a forest on top of `stack` where the forest has one: a `while`
/// with fewer than two stacked tokens after it, or a call with no argument group after
/// it, has none. Tells whether it had one; where it had, the stack is the one
/// `create_stack` builds and the forest is consumed; where it had not, what the forest
/// and the stack are left holding is not said.
pub fn try_create_stack(tokens: &mut Vec<Node>, stack: &mut Vec<TypedToken>) -> (ok: bool)
    ensures
        ok == stack_run(forest_model(old(tokens)@), tokens_view(old(stack)@)) is Some,
        ok ==> tokens_view(final(stack)@) == stack_run(
            forest_model(old(tokens)@),
            tokens_view(old(stack)@),
        ).unwrap(),
        ok ==> final(tokens)@.len() == 0,
{
    build_stack(tokens, stack)
}

} // verus!
