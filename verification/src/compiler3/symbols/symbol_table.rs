//! Symbol tables: a tree of tables, each opened inside another, each holding the symbols
//! declared at its nesting level. The tables of a program are kept together and refer to
//! one another by their index; the first is the outermost.
use vstd::prelude::*;
use crate::compiler3::leblanc_type::LBType;
use crate::compiler::parser::ast::Location;

verus! {

/// A table that can open tables below itself and reach the outermost table.
pub trait SubTable: Sized {
    fn create_sub_table(&mut self) -> Self;

    fn get_highest_table(&self) -> Self;
}

/// What a symbol stands for.
#[derive(Clone, Copy, Debug, PartialEq, Eq, Structural)]
pub enum SymbolType {
    Class(u64),
    Function(u64),
    Expression,
    Argument,
    Type,
    Ident,
    IdentAttribute,
}

#[derive(Clone, Copy, Debug, PartialEq, Eq, Structural)]
pub enum Scope {
    Global,
    Intermediate,
    Local(u16),
}

/// What a table is being filled for; only used to follow references.
#[derive(Clone, Copy, Debug, PartialEq, Eq, Structural)]
pub enum TableIntention {
    Assignment,
    MethodCall,
    NoIntention,
}

/// A symbol: its name, what it stands for, its scope, its type, where it was written,
/// and the instruction it was made for.
#[derive(Debug)]
pub struct Symbol {
    pub name: String,
    pub form: SymbolType,
    pub scope: Scope,
    pub typ: Option<LBType>,
    pub location: Option<Location>,
    pub instruction: u16,
}

/// A symbol as a value.
pub struct SymbolView {
    pub name: Seq<char>,
    pub form: SymbolType,
    pub scope: Scope,
    pub typ: Option<LBType>,
    pub location: Option<Location>,
    pub instruction: u16,
}

impl View for Symbol {
    type V = SymbolView;

    open spec fn view(&self) -> SymbolView {
        SymbolView {
            name: self.name@,
            form: self.form,
            scope: self.scope,
            typ: self.typ,
            location: self.location,
            instruction: self.instruction,
        }
    }
}

/// Two symbols are the same when their names, forms, types and instructions are; where
/// they were written and their scopes do not count.
pub open spec fn same_symbol(a: SymbolView, b: SymbolView) -> bool {
    a.name == b.name && a.form == b.form && a.typ == b.typ && a.instruction == b.instruction
}

/// A copy of a symbol.
fn copy_symbol(s: &Symbol) -> (r: Symbol)
    ensures
        r@ == s@,
{
    Symbol {
        name: s.name.clone(),
        form: s.form,
        scope: s.scope,
        typ: s.typ,
        location: s.location,
        instruction: s.instruction,
    }
}

/// Whether two symbols are the same.
fn symbol_eq(a: &Symbol, b: &Symbol) -> (r: bool)
    ensures
        r == same_symbol(a@, b@),
{
    crate::text::str_eq(a.name.as_str(), b.name.as_str()) && a.form == b.form && a.typ == b.typ
        && a.instruction == b.instruction
}

/// One table: what it is filled for, its symbols, the table it was opened in, the tables
/// opened in it, and its nesting level.
#[derive(Debug)]
pub struct SymbolTable {
    pub intention: TableIntention,
    pub symbols: Vec<Symbol>,
    pub parent: Option<usize>,
    pub linked: Vec<usize>,
    pub level: u16,
}

/// The symbols of a table as values.
pub open spec fn symbols_of(t: SymbolTable) -> Seq<SymbolView> {
    t.symbols@.map_values(|s: Symbol| s@)
}

/// The tables of a program, and the counters of functions and classes they share.
#[derive(Debug)]
pub struct SymbolTables {
    pub tables: Vec<SymbolTable>,
    pub func_counter: u64,
    pub class_counter: u64,
}

/// The tables hang together: the first is the outermost; every other was opened in an
/// earlier table and is one level below it; every table listed as opened in a table
/// comes after it and names it as the table it was opened in.
pub open spec fn forest_wf(f: Seq<SymbolTable>) -> bool {
    &&& f.len() > 0
    &&& f[0].parent is None
    &&& f[0].level == 0
    &&& forall|i: int|
        0 < i < f.len() ==> ((#[trigger] f[i].parent) matches Some(p) && p < i && f[i].level == f[p as int].level
            + 1)
    &&& forall|i: int, k: int|
        0 <= i < f.len() && 0 <= k < f[i].linked@.len() ==> i < #[trigger] f[i].linked@[k] < f.len() && f[
            f[i].linked@[k] as int
        ].parent == Some(i as usize)
}

/// Two lists of tables with the same structure: the same tables, opened in the same
/// tables, at the same levels, with the same intentions.
pub open spec fn same_shape(f: Seq<SymbolTable>, g: Seq<SymbolTable>) -> bool {
    &&& g.len() == f.len()
    &&& forall|i: int|
        0 <= i < f.len() ==> (#[trigger] g[i]).parent == f[i].parent && g[i].linked@ == f[i].linked@ && g[i].level
            == f[i].level && g[i].intention == f[i].intention
}

/// Whether a symbol like `s` is in table `t` or in a table it was opened in, however far
/// out.
pub open spec fn exists_from(f: Seq<SymbolTable>, t: int, s: SymbolView) -> bool
    decreases t,
{
    if t < 0 || t >= f.len() {
        false
    } else if exists|j: int| 0 <= j < f[t].symbols@.len() && same_symbol((#[trigger] f[t].symbols@[j])@, s) {
        true
    } else {
        match f[t].parent {
            Some(p) => if p < t {
                exists_from(f, p as int, s)
            } else {
                false
            },
            None => false,
        }
    }
}

/// The outermost table above table `t`.
pub open spec fn highest(f: Seq<SymbolTable>, t: int) -> int
    decreases t,
{
    if t < 0 || t >= f.len() {
        t
    } else {
        match f[t].parent {
            Some(p) => if p < t {
                highest(f, p as int)
            } else {
                t
            },
            None => t,
        }
    }
}

/// Whether table `t` is table `u` or was opened in it, however far in.
pub open spec fn below(f: Seq<SymbolTable>, t: int, u: int) -> bool
    decreases t,
{
    if t < 0 || t >= f.len() {
        false
    } else if t == u {
        true
    } else {
        match f[t].parent {
            Some(p) => if p < t {
                below(f, p as int, u)
            } else {
                false
            },
            None => false,
        }
    }
}

/// The symbol as table `t` keeps it: in the outermost level it is global.
pub open spec fn placed(level: u16, s: SymbolView) -> SymbolView {
    if level == 0 {
        SymbolView { scope: Scope::Global, ..s }
    } else {
        s
    }
}

/// Whether `g` is `f` with `sym` added to table `t` and to each table opened in `t`.
pub open spec fn added(f: Seq<SymbolTable>, g: Seq<SymbolTable>, t: int, sym: SymbolView) -> bool {
    &&& same_shape(f, g)
    &&& forall|x: int|
        0 <= x < f.len() ==> symbols_of(#[trigger] g[x]) == if x == t || f[x].parent == Some(t as usize) {
            symbols_of(f[x]).push(sym)
        } else {
            symbols_of(f[x])
        }
}

impl SymbolTables {
    /// One outermost table, empty, with the function counter at 0 and the class counter
    /// at 1.
    pub fn new() -> (r: SymbolTables)
        ensures
            r.tables@.len() == 1,
            r.tables@[0].intention == TableIntention::NoIntention,
            symbols_of(r.tables@[0]) == Seq::<SymbolView>::empty(),
            r.tables@[0].linked@ == Seq::<usize>::empty(),
            r.func_counter == 0,
            r.class_counter == 1,
            forest_wf(r.tables@),
    {
        let root = SymbolTable {
            intention: TableIntention::NoIntention,
            symbols: Vec::new(),
            parent: None,
            linked: Vec::new(),
            level: 0,
        };
        let mut tables: Vec<SymbolTable> = Vec::new();
        tables.push(root);
        let r = SymbolTables { tables, func_counter: 0, class_counter: 1 };
        assert(symbols_of(r.tables@[0]) =~= Seq::<SymbolView>::empty());
        r
    }

    /// Records what table `t` is filled for.
    pub fn set_intention(&mut self, t: usize, intention: TableIntention)
        requires
            t < old(self).tables@.len(),
        ensures
            final(self).tables@ == old(self).tables@.update(
                t as int,
                SymbolTable { intention, ..old(self).tables@[t as int] },
            ),
            final(self).func_counter == old(self).func_counter,
            final(self).class_counter == old(self).class_counter,
    {
        let ghost f = self.tables@;
        let mut table = self.tables.remove(t);
        table.intention = intention;
        self.tables.insert(t, table);
        assert(self.tables@ =~= f.update(t as int, SymbolTable { intention, ..f[t as int] }));
    }

    /// Adds `symbol` to table `t` and to each table opened in `t`; in the outermost level
    /// the symbol is made global.
    pub fn add_symbol(&mut self, t: usize, symbol: Symbol)
        requires
            t < old(self).tables@.len(),
            forest_wf(old(self).tables@),
        ensures
            added(old(self).tables@, final(self).tables@, t as int, placed(old(self).tables@[t as int].level, symbol@)),
            forest_wf(final(self).tables@),
            final(self).func_counter == old(self).func_counter,
            final(self).class_counter == old(self).class_counter,
    {
        let ghost f = self.tables@;
        let ghost s0 = symbol@;
        let mut symbol = symbol;
        if self.tables[t].level == 0 {
            symbol.scope = Scope::Global;
        }
        let ghost sym = symbol@;
        assert(sym == placed(f[t as int].level, s0));
        let mut i: usize = 0;
        while i < self.tables.len()
            invariant
                self.tables@.len() == f.len(),
                t < f.len(),
                sym == symbol@,
                i <= f.len(),
                same_shape(f, self.tables@),
                self.func_counter == old(self).func_counter,
                self.class_counter == old(self).class_counter,
                forall|x: int|
                    0 <= x < f.len() ==> symbols_of(#[trigger] self.tables@[x]) == if x < i && (x == t || f[x].parent
                        == Some(t)) {
                        symbols_of(f[x]).push(sym)
                    } else {
                        symbols_of(f[x])
                    },
            decreases f.len() - i,
        {
            let ghost before = self.tables@;
            assert(before[i as int].parent == f[i as int].parent);
            if i == t || self.tables[i].parent == Some(t) {
                let mut table = self.tables.remove(i);
                table.symbols.push(copy_symbol(&symbol));
                self.tables.insert(i, table);
                proof {
                    assert(symbols_of(table) =~= symbols_of(before[i as int]).push(sym));
                    assert(self.tables@[i as int] == table);
                    assert forall|x: int| 0 <= x < f.len() && x != i implies self.tables@[x] == before[x] by {}
                    assert(symbols_of(before[i as int]) == symbols_of(f[i as int]));
                }
            }
            i = i + 1;
            assert forall|x: int| 0 <= x < f.len() implies symbols_of(#[trigger] self.tables@[x]) == if x < i && (x == t
                || f[x].parent == Some(t)) {
                symbols_of(f[x]).push(sym)
            } else {
                symbols_of(f[x])
            } by {
                if x != i - 1 {
                    assert(self.tables@[x] == before[x]);
                }
            }
        }
        proof {
            lemma_same_shape_wf(f, self.tables@);
        }
    }
    /// Adds an expression symbol named `name` to table `t` alone, in the local scope of
    /// the table's level.
    pub fn add_generic_symbol(&mut self, t: usize, name: String, instruction: u16, location: Option<Location>)
        requires
            t < old(self).tables@.len(),
            forest_wf(old(self).tables@),
        ensures
            same_shape(old(self).tables@, final(self).tables@),
            forest_wf(final(self).tables@),
            symbols_of(final(self).tables@[t as int]) == symbols_of(old(self).tables@[t as int]).push(
                SymbolView {
                    name: name@,
                    form: SymbolType::Expression,
                    scope: Scope::Local(old(self).tables@[t as int].level),
                    typ: None,
                    location,
                    instruction,
                },
            ),
            forall|x: int| 0 <= x < old(self).tables@.len() && x != t ==> final(self).tables@[x] == old(self).tables@[x],
            final(self).func_counter == old(self).func_counter,
            final(self).class_counter == old(self).class_counter,
    {
        let ghost f = self.tables@;
        let mut table = self.tables.remove(t);
        let level = table.level;
        table.symbols.push(
            Symbol { name, form: SymbolType::Expression, scope: Scope::Local(level), typ: None, location, instruction },
        );
        self.tables.insert(t, table);
        proof {
            assert(symbols_of(table) =~= symbols_of(f[t as int]).push(
                SymbolView {
                    name: name@,
                    form: SymbolType::Expression,
                    scope: Scope::Local(level),
                    typ: None,
                    location,
                    instruction,
                },
            ));
            assert forall|x: int| 0 <= x < f.len() && x != t implies self.tables@[x] == f[x] by {}
            lemma_same_shape_wf(f, self.tables@);
        }
    }

    /// Whether a symbol like `symbol` is in table `t` or in a table it was opened in,
    /// however far out.
    pub fn check_existence(&self, t: usize, symbol: &Symbol) -> (r: bool)
        requires
            t < self.tables@.len(),
            forest_wf(self.tables@),
        ensures
            r == exists_from(self.tables@, t as int, symbol@),
        decreases t,
    {
        let table = &self.tables[t];
        let mut j: usize = 0;
        while j < table.symbols.len()
            invariant
                t < self.tables@.len(),
                *table == self.tables@[t as int],
                j <= table.symbols@.len(),
                forall|m: int| 0 <= m < j ==> !same_symbol((#[trigger] table.symbols@[m])@, symbol@),
            decreases table.symbols.len() - j,
        {
            if symbol_eq(&table.symbols[j], symbol) {
                assert(self.tables@[t as int].symbols@[j as int] == table.symbols@[j as int]);
                return true;
            }
            j = j + 1;
        }
        match table.parent {
            Some(p) => {
                if t > 0 {
                    assert(self.tables@[t as int].parent == Some(p) && p < t);
                }
                if p < t {
                    self.check_existence(p, symbol)
                } else {
                    false
                }
            },
            None => false,
        }
    }

    /// Opens a table in table `t`, one level below it, and gives its index.
    pub fn create_sub_table(&mut self, t: usize) -> (r: usize)
        requires
            t < old(self).tables@.len(),
            forest_wf(old(self).tables@),
            old(self).tables@[t as int].level < u16::MAX,
        ensures
            r == old(self).tables@.len(),
            final(self).tables@.len() == old(self).tables@.len() + 1,
            final(self).tables@[r as int].intention == TableIntention::NoIntention,
            symbols_of(final(self).tables@[r as int]) == Seq::<SymbolView>::empty(),
            final(self).tables@[r as int].parent == Some(t),
            final(self).tables@[r as int].linked@ == Seq::<usize>::empty(),
            final(self).tables@[r as int].level == old(self).tables@[t as int].level + 1,
            final(self).tables@[t as int] == (SymbolTable {
                linked: final(self).tables@[t as int].linked,
                ..old(self).tables@[t as int]
            }),
            final(self).tables@[t as int].linked@ == old(self).tables@[t as int].linked@.push(r),
            forall|x: int| 0 <= x < old(self).tables@.len() && x != t ==> final(self).tables@[x] == old(self).tables@[x],
            forest_wf(final(self).tables@),
            final(self).func_counter == old(self).func_counter,
            final(self).class_counter == old(self).class_counter,
    {
        let ghost f = self.tables@;
        let n = self.tables.len();
        let level = self.tables[t].level + 1;
        let sub = SymbolTable {
            intention: TableIntention::NoIntention,
            symbols: Vec::new(),
            parent: Some(t),
            linked: Vec::new(),
            level,
        };
        self.tables.push(sub);
        let mut table = self.tables.remove(t);
        table.linked.push(n);
        self.tables.insert(t, table);
        proof {
            let g = self.tables@;
            assert(symbols_of(g[n as int]) =~= Seq::<SymbolView>::empty());
            assert forall|x: int| 0 <= x < f.len() && x != t implies g[x] == f[x] by {}
            assert(g[t as int].linked@ == f[t as int].linked@.push(n));
            assert forall|i: int| 0 < i < g.len() implies ((#[trigger] g[i].parent) matches Some(p) && p < i && g[i].level
                == g[p as int].level + 1) by {
                if i < f.len() {
                    assert(f[i].parent matches Some(p) && p < i);
                    let p = f[i].parent->0;
                    assert(g[p as int].level == f[p as int].level);
                }
            }
            assert forall|i: int, k: int|
                0 <= i < g.len() && 0 <= k < g[i].linked@.len() implies i < #[trigger] g[i].linked@[k] < g.len() && g[
                    g[i].linked@[k] as int
                ].parent == Some(i as usize) by {
                if i == t && k == f[t as int].linked@.len() {
                } else if i < f.len() {
                    assert(g[i].linked@[k] == f[i].linked@[k]);
                    assert(f[i].linked@[k] < f.len());
                    assert(g[f[i].linked@[k] as int].parent == f[f[i].linked@[k] as int].parent) by {
                        if f[i].linked@[k] as int != t as int {
                            assert(g[f[i].linked@[k] as int] == f[f[i].linked@[k] as int]);
                        }
                    }
                }
            }
        }
        n
    }

    /// The outermost table above table `t`.
    pub fn get_highest_table(&self, t: usize) -> (r: usize)
        requires
            t < self.tables@.len(),
            forest_wf(self.tables@),
        ensures
            r as int == highest(self.tables@, t as int),
        decreases t,
    {
        match self.tables[t].parent {
            Some(p) => {
                if t > 0 {
                    assert(self.tables@[t as int].parent == Some(p) && p < t);
                }
                if p < t {
                    self.get_highest_table(p)
                } else {
                    t
                }
            },
            None => t,
        }
    }
}


/// Tables with the same structure, whatever their symbols, hang together alike.
proof fn lemma_same_shape_wf(f: Seq<SymbolTable>, g: Seq<SymbolTable>)
    requires
        forest_wf(f),
        same_shape(f, g),
    ensures
        forest_wf(g),
{
    assert forall|i: int| 0 < i < g.len() implies ((#[trigger] g[i].parent) matches Some(p) && p < i && g[i].level
        == g[p as int].level + 1) by {
        assert(f[i].parent matches Some(p) && p < i);
        let p = f[i].parent->0;
        assert(g[p as int].level == f[p as int].level);
    }
    assert forall|i: int, k: int|
        0 <= i < g.len() && 0 <= k < g[i].linked@.len() implies i < #[trigger] g[i].linked@[k] < g.len() && g[
            g[i].linked@[k] as int
        ].parent == Some(i as usize) by {
        assert(g[i].linked@ == f[i].linked@);
        assert(f[i].linked@[k] < f.len());
        assert(g[f[i].linked@[k] as int].parent == f[f[i].linked@[k] as int].parent);
    }
}

/// A symbol added to a table is found from that table and from every table opened in
/// it, however deep.
pub proof fn added_symbol_is_found_below(
    f: Seq<SymbolTable>,
    g: Seq<SymbolTable>,
    t: int,
    s: SymbolView,
    u: int,
)
    requires
        forest_wf(f),
        0 <= t < f.len(),
        added(f, g, t, placed(f[t].level, s)),
        below(f, u, t),
    ensures
        exists_from(g, u, s),
    decreases u,
{
    let sym = placed(f[t].level, s);
    if u == t {
        assert(symbols_of(g[t]) == symbols_of(f[t]).push(sym));
        assert(symbols_of(g[t]).len() == g[t].symbols@.len());
        let last = g[t].symbols@.len() - 1;
        assert(symbols_of(g[t])[last] == g[t].symbols@[last]@);
        assert(same_symbol(g[t].symbols@[last]@, s));
    } else {
        let p = f[u].parent->0;
        assert(g[u].parent == f[u].parent);
        added_symbol_is_found_below(f, g, t, s, p as int);
    }
}

/// Every table lies under the first: the outermost table above any table is the first.
pub proof fn the_outermost_table_is_the_first(f: Seq<SymbolTable>, t: int)
    requires
        forest_wf(f),
        0 <= t < f.len(),
    ensures
        highest(f, t) == 0,
    decreases t,
{
    if t > 0 {
        assert(f[t].parent matches Some(p) && p < t);
        the_outermost_table_is_the_first(f, f[t].parent->0 as int);
    }
}

} // verus!
