//! Support types shared by the compiler passes: the error stubs they record and the
//! token trees they build.
use vstd::prelude::*;
use crate::compiler::identifier::typed_token::{TypedToken, TypedTokenModel, tokens_view};
use crate::compiler::symbols::Symbol;

verus! {

/// The path of a source file, known when the compiler is built.
#[derive(Clone, Copy, Debug)]
pub struct ZCPath(pub &'static str);

/// An error found while reading a source file, recorded for a later report.
#[derive(Debug)]
pub enum ErrorStub {
    ParseImbalancedQuotation(u32, u32),
    InvalidSyntax(TypedToken),
    VariableAlreadyDefined(TypedToken),
    InvalidGlobalVariableDeclaration(TypedToken),
    ImbalancedDelimiter(Symbol),
    UndeclaredVariable(TypedToken),
    IncompatibleType(TypedToken),
}

/// An error stub as a mathematical value.
pub enum ErrorStubModel {
    ParseImbalancedQuotation(u32, u32),
    InvalidSyntax(TypedTokenModel),
    VariableAlreadyDefined(TypedTokenModel),
    InvalidGlobalVariableDeclaration(TypedTokenModel),
    ImbalancedDelimiter(Symbol),
    UndeclaredVariable(TypedTokenModel),
    IncompatibleType(TypedTokenModel),
}

impl View for ErrorStub {
    type V = ErrorStubModel;

    open spec fn view(&self) -> ErrorStubModel {
        match self {
            ErrorStub::ParseImbalancedQuotation(l, s) => ErrorStubModel::ParseImbalancedQuotation(
                *l,
                *s,
            ),
            ErrorStub::InvalidSyntax(t) => ErrorStubModel::InvalidSyntax(t@),
            ErrorStub::VariableAlreadyDefined(t) => ErrorStubModel::VariableAlreadyDefined(t@),
            ErrorStub::InvalidGlobalVariableDeclaration(t) =>
                ErrorStubModel::InvalidGlobalVariableDeclaration(t@),
            ErrorStub::ImbalancedDelimiter(s) => ErrorStubModel::ImbalancedDelimiter(*s),
            ErrorStub::UndeclaredVariable(t) => ErrorStubModel::UndeclaredVariable(t@),
            ErrorStub::IncompatibleType(t) => ErrorStubModel::IncompatibleType(t@),
        }
    }
}

/// The contents of a list of error stubs.
pub open spec fn errors_view(v: Seq<ErrorStub>) -> Seq<ErrorStubModel> {
    v.map_values(|e: ErrorStub| e@)
}

/// A tree of typed tokens: a token and the tokens nested under it.
#[derive(Debug)]
pub struct Node {
    pub value: TypedToken,
    pub children: Vec<Node>,
}

/// A token tree as a mathematical value.
pub enum TreeModel {
    Branch(TypedTokenModel, Seq<TreeModel>),
}

impl Node {
    /// The tree below this node as a value.
    pub open spec fn model(self) -> TreeModel
        decreases self,
    {
        TreeModel::Branch(
            self.value@,
            Seq::new(
                self.children@.len(),
                |i: int|
                    if 0 <= i < self.children@.len() {
                        self.children@[i].model()
                    } else {
                        TreeModel::Branch(self.value@, Seq::empty())
                    },
            ),
        )
    }

    /// A node without children.
    pub fn new(value: TypedToken) -> (r: Node)
        ensures
            r.value@ == value@,
            r.children@.len() == 0,
    {
        Node { value, children: Vec::new() }
    }
}

/// The tokens of a forest in pre-order: each token before the tokens nested under it.
pub open spec fn flatten_forest(f: Seq<TreeModel>) -> Seq<TypedTokenModel>
    decreases f,
{
    if f.len() == 0 {
        Seq::empty()
    } else {
        flatten_forest(f.drop_last()) + flatten_tree(f.last())
    }
}

/// The tokens of a tree in pre-order.
pub open spec fn flatten_tree(t: TreeModel) -> Seq<TypedTokenModel>
    decreases t,
{
    match t {
        TreeModel::Branch(v, c) => seq![v] + flatten_forest(c),
    }
}

/// The models of a list of nodes.
pub open spec fn forest_model(v: Seq<Node>) -> Seq<TreeModel> {
    Seq::new(v.len(), |i: int| v[i].model())
}

/// Appends the tokens of a forest, in pre-order, to `out`.
fn flatten_into(nodes: &Vec<Node>, out: &mut Vec<TypedToken>)
    ensures
        tokens_view(final(out)@) == tokens_view(old(out)@) + flatten_forest(forest_model(nodes@)),
    decreases nodes@,
{
    let mut i: usize = 0;
    while i < nodes.len()
        invariant
            i <= nodes@.len(),
            tokens_view(out@) == tokens_view(old(out)@) + flatten_forest(
                forest_model(nodes@.subrange(0, i as int)),
            ),
        decreases nodes@.len() - i,
    {
        let node = &nodes[i];
        let ghost before = out@;
        out.push(node.value.clone());
        assert(decreases_to!(nodes@ => node.children@)) by {
            assert(decreases_to!(nodes@ => nodes@[i as int]));
            assert(decreases_to!(nodes@[i as int] => nodes@[i as int].children));
        }
        flatten_into(&node.children, out);
        proof {
            let f = forest_model(nodes@.subrange(0, i + 1));
            assert(f.drop_last() =~= forest_model(nodes@.subrange(0, i as int)));
            assert(f.last() == node.model());
            assert(forest_model(node.children@) =~= match node.model() {
                TreeModel::Branch(_, c) => c,
            });
            assert(tokens_view(before.push(node.value)) =~= tokens_view(before).push(node.value@));
            let cm = forest_model(node.children@);
            assert(flatten_tree(node.model()) == seq![node.value@] + flatten_forest(cm));
            assert(flatten_forest(f) == flatten_forest(f.drop_last()) + flatten_tree(f.last()));
            let a = tokens_view(old(out)@);
            let x = flatten_forest(f.drop_last());
            let y = flatten_forest(cm);
            assert(tokens_view(before) == a + x);
            assert(tokens_view(out@) == tokens_view(before).push(node.value@) + y);
            assert((a + x).push(node.value@) + y =~= a + (x + (seq![node.value@] + y)));
            assert(tokens_view(out@) =~= tokens_view(old(out)@) + flatten_forest(f));
        }
        i = i + 1;
    }
    assert(nodes@.subrange(0, nodes@.len() as int) =~= nodes@);
}

/// The tokens of a forest in pre-order.
pub fn flatmap_node_tokens(nodes: &Vec<Node>) -> (r: Vec<TypedToken>)
    ensures
        tokens_view(r@) == flatten_forest(forest_model(nodes@)),
{
    let mut out: Vec<TypedToken> = Vec::new();
    flatten_into(nodes, &mut out);
    assert(tokens_view(Seq::<TypedToken>::empty()) =~= Seq::<TypedTokenModel>::empty());
    assert(Seq::<TypedTokenModel>::empty() + flatten_forest(forest_model(nodes@)) =~= flatten_forest(forest_model(nodes@)));
    out
}

} // verus!
