//! The parts of the syntax tree that name things and place them in the source.
use vstd::prelude::*;
use crate::native_types::LeBlancType;
use crate::rustblanc::ZCPath;

verus! {

/// Where a piece of syntax stands: its file, its byte span, its line and its position
/// on the line.
#[derive(Clone, Copy, Debug)]
pub struct Location {
    pub file: ZCPath,
    pub byte_pos: (usize, usize),
    pub line: usize,
    pub symbol: usize,
}

impl Location {
    /// The location of what the compiler itself provides.
    pub fn builtin() -> (r: Location)
        ensures
            r.file.0@ == "__BUILTIN__"@,
            r.byte_pos == (0usize, 0usize),
            r.line == 0,
            r.symbol == 0,
    {
        Location { file: ZCPath("__BUILTIN__"), byte_pos: (0, 0), line: 0, symbol: 0 }
    }
}

/// What the parser knows of the source being read: the line and the position on the
/// line of each byte, in order, and the source's file.
#[derive(Debug)]
pub struct SourcePositions {
    pub byte_location: Vec<(usize, usize)>,
    pub file: ZCPath,
}

impl SourcePositions {
    /// No byte known yet, in the file `file`.
    pub fn new(file: ZCPath) -> (r: SourcePositions)
        ensures
            r.byte_location@ == Seq::<(usize, usize)>::empty(),
            r.file == file,
    {
        SourcePositions { byte_location: Vec::new(), file }
    }
}

/// Records the line and position of the next byte.
pub fn push_byte_location(positions: &mut SourcePositions, value: (usize, usize))
    ensures
        final(positions).byte_location@ == old(positions).byte_location@.push(value),
        final(positions).file == old(positions).file,
{
    positions.byte_location.push(value);
}

/// Forgets the positions of all bytes.
pub fn clear_byte_location(positions: &mut SourcePositions)
    ensures
        final(positions).byte_location@ == Seq::<(usize, usize)>::empty(),
        final(positions).file == old(positions).file,
{
    positions.byte_location.clear();
}

/// Sets the file being read.
pub fn set_file(positions: &mut SourcePositions, file: ZCPath)
    ensures
        final(positions).byte_location@ == old(positions).byte_location@,
        final(positions).file == file,
{
    positions.file = file;
}

impl Location {
    /// The location of the span `byte_pos`: in the file being read, on the line and at
    /// the position of its first byte.
    pub fn new(positions: &SourcePositions, byte_pos: (usize, usize)) -> (r: Location)
        requires
            byte_pos.0 < positions.byte_location@.len(),
        ensures
            r.file == positions.file,
            r.byte_pos == byte_pos,
            r.line == positions.byte_location@[byte_pos.0 as int].0,
            r.symbol == positions.byte_location@[byte_pos.0 as int].1,
    {
        let loc = positions.byte_location[byte_pos.0];
        Location { file: positions.file, byte_pos, line: loc.0, symbol: loc.1 }
    }
}

/// A piece of syntax with its location.
#[derive(Clone, Debug)]
pub struct Located<T> {
    pub location: Location,
    pub data: T,
}

impl<T> Located<T> {
    pub fn new(location: Location, data: T) -> (r: Self)
        ensures
            r.location == location,
            r.data == data,
    {
        Located { location, data }
    }
}

pub type Ident = Located<Id>;

/// A name: a plain identifier, an attribute of an object, a variant of an enum, or a
/// typed list.
#[derive(Debug)]
#[allow(inconsistent_fields)]
pub enum Id {
    Ident { ident: String },
    ObjIdent { ident: Box<Ident>, attr: Box<Ident> },
    EnumIdent { ident: Box<Ident>, kind: Box<Ident> },
    TypedListIdent { typing: LeBlancType },
}

/// Whether a name is made of identifiers only, without typed lists.
pub open spec fn resolvable(i: Ident) -> bool
    decreases i,
{
    match i.data {
        Id::Ident { .. } => true,
        Id::ObjIdent { ident, attr } => resolvable(*ident) && resolvable(*attr),
        Id::EnumIdent { ident, kind } => resolvable(*ident) && resolvable(*kind),
        Id::TypedListIdent { .. } => false,
    }
}

/// The dotted text of a name.
pub open spec fn spec_resolve(i: Ident) -> Seq<char>
    decreases i,
{
    match i.data {
        Id::Ident { ident } => ident@,
        Id::ObjIdent { ident, attr } => spec_resolve(*ident) + "."@ + spec_resolve(*attr),
        Id::EnumIdent { ident, kind } => spec_resolve(*ident) + "."@ + spec_resolve(*kind),
        Id::TypedListIdent { .. } => Seq::empty(),
    }
}

impl Located<Id> {
    /// The dotted text of the name: the parts of objects, attributes and variants
    /// joined by dots.
    pub fn resolve(&self) -> (r: String)
        requires
            resolvable(*self),
        ensures
            r@ == spec_resolve(*self),
        decreases *self,
    {
        match &self.data {
            Id::Ident { ident } => ident.clone(),
            Id::ObjIdent { ident, attr } => {
                let mut s = ident.resolve();
                s.append(".");
                let a = attr.resolve();
                s.append(a.as_str());
                s
            },
            Id::EnumIdent { ident, kind } => {
                let mut s = ident.resolve();
                s.append(".");
                let k = kind.resolve();
                s.append(k.as_str());
                s
            },
            Id::TypedListIdent { .. } => String::new(),
        }
    }
}

impl Id {
    /// Whether the name is made of identifiers only.
    pub open spec fn spec_printable(&self) -> bool {
        match self {
            Id::Ident { .. } => true,
            Id::ObjIdent { ident, attr } => resolvable(**ident) && resolvable(**attr),
            Id::EnumIdent { ident, kind } => resolvable(**ident) && resolvable(**kind),
            Id::TypedListIdent { .. } => false,
        }
    }

    /// The dotted text of the name.
    pub fn to_string(&self) -> (r: String)
        requires
            self.spec_printable(),
        ensures
            r@ == (match self {
                Id::Ident { ident } => ident@,
                Id::ObjIdent { ident, attr } => spec_resolve(**ident) + "."@ + spec_resolve(**attr),
                Id::EnumIdent { ident, kind } => spec_resolve(**ident) + "."@ + spec_resolve(**kind),
                Id::TypedListIdent { .. } => Seq::empty(),
            }),
    {
        match self {
            Id::Ident { ident } => ident.clone(),
            Id::ObjIdent { ident, attr } => {
                let mut s = ident.resolve();
                s.append(".");
                let a = attr.resolve();
                s.append(a.as_str());
                s
            },
            Id::EnumIdent { ident, kind } => {
                let mut s = ident.resolve();
                s.append(".");
                let k = kind.resolve();
                s.append(k.as_str());
                s
            },
            Id::TypedListIdent { .. } => String::new(),
        }
    }
}

#[derive(Clone, Copy, Debug, PartialEq, Eq, Structural)]
pub enum BinaryOperator {
    BinAdd,
    BinSub,
    BinMul,
    BinDiv,
    BinPow,
    BinMod,
    BinLShift,
    BinRShift,
}

#[derive(Clone, Copy, Debug, PartialEq, Eq, Structural)]
pub enum UnaryOperator {
    UPositive,
    UNegative,
    UNot,
    UInverse,
    UIncrement,
    UDecrement,
}

#[derive(Clone, Copy, Debug, PartialEq, Eq, Structural)]
pub enum Comparator {
    Equal,
    NotEqual,
    GreaterEqual,
    LesserEqual,
    Greater,
    Lesser,
    In,
}

#[derive(Clone, Copy, Debug, PartialEq, Eq, Structural)]
pub enum CondType {
    If,
    ElseIf,
    Else,
}

/// What a module requires of, and exports to, other modules.
#[derive(Debug)]
pub enum Reqs {
    Requires { dependees: Vec<Ident>, required: Vec<Ident> },
    Export { exports: Vec<Ident> },
}

pub type Component = Located<Cmpnt>;
pub type Expression = Located<Expr>;
pub type Statement = Located<Stmnt>;
pub type Constant = Located<Const>;
pub type Required = Located<Reqs>;
pub type LConditional = Located<Conditional>;

/// A top-level item of a module: a function with its header and body, a class, a trait,
/// an extension, a property, an import, an enum, the module's requirements, or nothing.
#[derive(Debug)]
pub enum Cmpnt {
    Function { header: Box<Component>, body: Statement, tags: Vec<String> },
    FunctionHeader { name: String, args: Vec<Expression>, returns: Vec<LeBlancType> },
    Class { name: String, super_traits: Vec<String>, items: Vec<Component> },
    Trait { name: String, super_traits: Vec<String>, items: Vec<Component> },
    Extension { name: String, targets: Vec<LeBlancType>, items: Vec<Component> },
    Property { typing: LeBlancType, ident: String, value: Option<Expression> },
    Import { module: String, import: Option<Vec<String>> },
    ExtImport { module: String, extension: String },
    Enum { name: String, type_params: Option<Vec<String>>, items: Vec<Component> },
    EnumItem { name: String, nested: Vec<LeBlancType> },
    Requirements { required: Vec<Required> },
    NoComponent,
}

/// A statement.
#[derive(Debug)]
pub enum Stmnt {
    Global { statement: Box<Statement> },
    Block { statements: Vec<Statement> },
    Line { expr: Expression },
    Conditional { conditional: Conditional },
    MultiConditional { conditionals: Vec<Statement> },
    While { condition: Expression, statement: Box<Statement> },
    For { variable: Expression, iterable: Expression, statement: Box<Statement> },
    InfLoop { statement: Box<Statement> },
    Try { statement: Box<Statement> },
    Except { catch: Option<Expression>, statement: Box<Statement> },
    Return { statement: Box<Statement> },
    NoStatement,
}

/// One branch of a conditional.
#[derive(Debug)]
pub enum Conditional {
    If { condition: Expression, statement: Box<Statement> },
    ElseIf { condition: Expression, statement: Box<Statement> },
    Else { statement: Box<Statement> },
}

/// An expression.
#[derive(Debug)]
pub enum Expr {
    Break,
    RangeExpression { start: Box<Expression>, bound: Box<Expression>, step: Box<Expression> },
    StaticMethodCall { method_name: Box<Expression>, args: Vec<Expression> },
    ListIndex { list: Box<Expression>, slice: Box<Expression> },
    Slice { left: Box<Expression>, right: Box<Expression> },
    SeriesIndex { indices: Vec<Expression> },
    Equality { left: Box<Expression>, comparator: Comparator, right: Box<Expression> },
    List { items: Vec<Expression> },
    ArithPlusMinusOperation { left: Box<Expression>, op: BinaryOperator, right: Box<Expression> },
    ArithMulDivModOperation { left: Box<Expression>, op: BinaryOperator, right: Box<Expression> },
    ExponentialOperation { left: Box<Expression>, op: BinaryOperator, right: Box<Expression> },
    UnaryOperation { term: Box<Expression>, op: UnaryOperator },
    IncrementDecrementOperation { term: Box<Expression>, op: UnaryOperator, postfix: bool },
    ListAssignment { list: Box<Expression>, expr: Box<Expression> },
    TypedAssignment { idents: Vec<Expression>, expr: Option<Box<Expression>> },
    NormalAssignment { idents: Vec<Ident>, expr: Box<Expression> },
    GroupAssignment { assignee: Box<Expression>, group: Box<Expression> },
    BlockLambda { variables: Vec<Ident>, block: Box<Statement> },
    ExprLambda { variables: Vec<Ident>, expr: Box<Expression> },
    ExceptCatch { errors: Vec<LeBlancType>, variable: String },
    TypedVariable { typing: LeBlancType, variable: Ident },
    Ident { ident: Ident },
    Constant { constant: Const },
}

/// A constant as written: a string, a whole number, a floating-point number given by
/// the bits of its IEEE 754 double form, or a boolean; numbers may carry the type they
/// were written with.
#[derive(Debug)]
pub enum Const {
    String(String, Location),
    Whole(i64, Option<LeBlancType>, Location),
    Float(u64, Option<LeBlancType>, Location),
    Boolean(bool, Location),
}

impl Const {
    pub open spec fn spec_location(&self) -> Location {
        match self {
            Const::String(_, l) => *l,
            Const::Whole(_, _, l) => *l,
            Const::Float(_, _, l) => *l,
            Const::Boolean(_, l) => *l,
        }
    }

    /// Where the constant was written.
    pub fn location(&self) -> (r: Location)
        ensures
            r == self.spec_location(),
    {
        match self {
            Const::String(_, l) => *l,
            Const::Whole(_, _, l) => *l,
            Const::Float(_, _, l) => *l,
            Const::Boolean(_, l) => *l,
        }
    }

    /// The type of the constant: the type it was written with, else a string, an `int`,
    /// a `double` or a boolean.
    pub fn to_lb_type(&self) -> (r: LeBlancType)
        ensures
            r == (match self {
                Const::String(_, _) => LeBlancType::String,
                Const::Whole(_, t, _) => match t {
                    Some(t) => *t,
                    None => LeBlancType::Int,
                },
                Const::Float(_, t, _) => match t {
                    Some(t) => *t,
                    None => LeBlancType::Double,
                },
                Const::Boolean(_, _) => LeBlancType::Boolean,
            }),
    {
        match self {
            Const::String(_, _) => LeBlancType::String,
            Const::Whole(_, t, _) => match t {
                Some(t) => *t,
                None => LeBlancType::Int,
            },
            Const::Float(_, t, _) => match t {
                Some(t) => *t,
                None => LeBlancType::Double,
            },
            Const::Boolean(_, _) => LeBlancType::Boolean,
        }
    }
}

} // verus!
