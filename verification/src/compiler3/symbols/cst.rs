//! Combined symbol tables: their symbols, how two symbols are compared, and the tables
//! that hold them, kept together and referring to one another by index.
use vstd::prelude::*;
use crate::compiler3::leblanc_type::LBType;
use crate::compiler::parser::ast::Location;
use crate::text::str_eq;

verus! {

/// A table that can open tables below itself and reach the outermost table.
pub trait SubTable: Sized {
    fn create_sub_table(&mut self) -> Self;

    fn get_highest_table(&self) -> Self;
}

/// What a symbol names: a function or class with its number, or anything else.
#[derive(Clone, Copy, Debug, PartialEq, Eq, Structural)]
pub enum SymbolType {
    Function(u64),
    Class(u64),
    Standard,
}

/// Where a symbol is visible: everywhere, between a function and its body, or in the
/// local scope of a nesting level.
#[derive(Clone, Copy, Debug, PartialEq, Eq, Structural)]
pub enum Scope {
    Global,
    Intermediate,
    Local(u16),
}

/// How closely two symbols are compared: by name, type and a strictly shallower scope;
/// also by sub-symbols; or by name, type, a scope no deeper, sub-symbols and where they
/// were written.
#[derive(Clone, Copy, Debug, PartialEq, Eq, Structural)]
pub enum Strategy {
    LAZY,
    STANDARD,
    RUST,
}

/// A symbol of a combined table: its name, what it names, its type, the symbols under
/// it (the arguments of a function), where it was written, whether it must be unique,
/// its scope, and the table it opens, if any (by index).
#[derive(Debug)]
pub struct CombinedSymbol {
    pub name: String,
    pub stype: SymbolType,
    pub typ: Option<LBType>,
    pub subsymbols: Vec<CombinedSymbol>,
    pub location: Option<Location>,
    pub unique: bool,
    pub scope: Scope,
    pub linked: Option<usize>,
}

/// Whether scope `a` is no deeper than scope `b`: the global scope, then the
/// intermediate one, then the local scopes by level.
pub open spec fn scope_le(a: Scope, b: Scope) -> bool {
    match (a, b) {
        (Scope::Global, _) => true,
        (Scope::Intermediate, Scope::Global) => false,
        (Scope::Intermediate, _) => true,
        (Scope::Local(x), Scope::Local(y)) => x <= y,
        (Scope::Local(_), _) => false,
    }
}

/// Whether scope `a` is strictly shallower than scope `b`.
pub open spec fn scope_lt(a: Scope, b: Scope) -> bool {
    scope_le(a, b) && a != b
}

/// Two places in the source are the same.
pub open spec fn same_location(a: Option<Location>, b: Option<Location>) -> bool {
    match (a, b) {
        (None, None) => true,
        (Some(x), Some(y)) => x.file.0@ == y.file.0@ && x.byte_pos == y.byte_pos && x.line == y.line
            && x.symbol == y.symbol,
        _ => false,
    }
}

/// Two symbols are equal when their names, uniqueness, kinds, sub-symbols and places
/// are.
pub open spec fn symbol_equal(a: CombinedSymbol, b: CombinedSymbol) -> bool
    decreases a, 1int,
{
    &&& a.name@ == b.name@
    &&& a.unique == b.unique
    &&& a.stype == b.stype
    &&& a.subsymbols@.len() == b.subsymbols@.len()
    &&& subsymbols_equal(a.subsymbols@, b.subsymbols@, 0)
    &&& same_location(a.location, b.location)
}

/// The sub-symbols from the `i`th on are equal one for one.
pub open spec fn subsymbols_equal(xs: Seq<CombinedSymbol>, ys: Seq<CombinedSymbol>, i: int) -> bool
    decreases xs, xs.len() - i,
{
    if i < 0 || i >= xs.len() || i >= ys.len() {
        true
    } else {
        symbol_equal(xs[i], ys[i]) && subsymbols_equal(xs, ys, i + 1)
    }
}

/// Whether `a` matches `b` under a strategy; only a symbol that must be unique, on either
/// side, matches at all.
pub open spec fn spec_scan(a: CombinedSymbol, b: CombinedSymbol, strategy: Strategy) -> bool {
    if !(a.unique || b.unique) {
        false
    } else {
        let named = a.name@ == b.name@ && a.typ == b.typ;
        let same_subs = a.subsymbols@.len() == b.subsymbols@.len() && subsymbols_equal(
            a.subsymbols@,
            b.subsymbols@,
            0,
        );
        match strategy {
            Strategy::LAZY => named && scope_lt(a.scope, b.scope),
            Strategy::STANDARD => named && scope_lt(a.scope, b.scope) && same_subs,
            Strategy::RUST => named && scope_le(a.scope, b.scope) && same_subs && same_location(
                a.location,
                b.location,
            ),
        }
    }
}

fn scope_le_exec(a: Scope, b: Scope) -> (r: bool)
    ensures
        r == scope_le(a, b),
{
    match (a, b) {
        (Scope::Global, _) => true,
        (Scope::Intermediate, Scope::Global) => false,
        (Scope::Intermediate, _) => true,
        (Scope::Local(x), Scope::Local(y)) => x <= y,
        (Scope::Local(_), _) => false,
    }
}

fn scope_lt_exec(a: Scope, b: Scope) -> (r: bool)
    ensures
        r == scope_lt(a, b),
{
    match (a, b) {
        (Scope::Global, Scope::Global) => false,
        (Scope::Global, _) => true,
        (Scope::Intermediate, Scope::Local(_)) => true,
        (Scope::Intermediate, _) => false,
        (Scope::Local(x), Scope::Local(y)) => x < y,
        (Scope::Local(_), _) => false,
    }
}

fn location_eq(a: &Option<Location>, b: &Option<Location>) -> (r: bool)
    ensures
        r == same_location(*a, *b),
{
    match (a, b) {
        (None, None) => true,
        (Some(x), Some(y)) => str_eq(x.file.0, y.file.0) && x.byte_pos.0 == y.byte_pos.0 && x.byte_pos.1 == y.byte_pos.1 && x.line == y.line
            && x.symbol == y.symbol,
        _ => false,
    }
}

fn subsymbols_eq(xs: &Vec<CombinedSymbol>, ys: &Vec<CombinedSymbol>) -> (r: bool)
    ensures
        r == (xs@.len() == ys@.len() && subsymbols_equal(xs@, ys@, 0)),
    decreases xs, 0int,
{
    if xs.len() != ys.len() {
        return false;
    }
    let mut i = xs.len();
    let mut all = true;
    while i > 0
        invariant
            i <= xs@.len(),
            xs@.len() == ys@.len(),
            all == subsymbols_equal(xs@, ys@, i as int),
        decreases i,
    {
        i = i - 1;
        assert(decreases_to!(xs => xs@[i as int]));
        let e = xs[i].eq(&ys[i]);
        all = e && all;
    }
    all
}

impl CombinedSymbol {
    /// Whether two symbols are equal: names, uniqueness, kinds, sub-symbols and places.
    pub fn eq(&self, other: &CombinedSymbol) -> (r: bool)
        ensures
            r == symbol_equal(*self, *other),
        decreases *self, 1int,
    {
        str_eq(self.name.as_str(), other.name.as_str()) && self.unique == other.unique && self.stype
            == other.stype && subsymbols_eq(&self.subsymbols, &other.subsymbols) && location_eq(
            &self.location,
            &other.location,
        )
    }

    /// Whether this symbol matches `other` under `strategy`; only a symbol that must be
    /// unique, on either side, matches at all. `LAZY` compares names and types and asks
    /// that this symbol's scope be strictly shallower than the other's; `STANDARD` also
    /// asks that their sub-symbols be equal; `RUST` compares names, types, sub-symbols
    /// and where they were written, and asks that this symbol's scope be no deeper.
    pub fn scan(&self, other: &CombinedSymbol, strategy: Strategy) -> (r: bool)
        ensures
            r == spec_scan(*self, *other, strategy),
    {
        if !(self.unique || other.unique) {
            false
        } else {
            let named = str_eq(self.name.as_str(), other.name.as_str()) && self.typ == other.typ;
            match strategy {
                Strategy::LAZY => named && scope_lt_exec(self.scope, other.scope),
                Strategy::STANDARD => named && scope_lt_exec(self.scope, other.scope) && subsymbols_eq(
                    &self.subsymbols,
                    &other.subsymbols,
                ),
                Strategy::RUST => named && scope_le_exec(self.scope, other.scope) && subsymbols_eq(
                    &self.subsymbols,
                    &other.subsymbols,
                ) && location_eq(&self.location, &other.location),
            }
        }
    }
}



/// A combined symbol as a value.
pub struct CSymView {
    pub name: Seq<char>,
    pub stype: SymbolType,
    pub typ: Option<LBType>,
    pub subsymbols: Seq<CSymView>,
    pub location: Option<Location>,
    pub unique: bool,
    pub scope: Scope,
    pub linked: Option<usize>,
}

/// The value of a combined symbol.
pub open spec fn sym_view(s: CombinedSymbol) -> CSymView
    decreases s, 1int,
{
    CSymView {
        name: s.name@,
        stype: s.stype,
        typ: s.typ,
        subsymbols: subs_view(s.subsymbols@),
        location: s.location,
        unique: s.unique,
        scope: s.scope,
        linked: s.linked,
    }
}

/// The values of a list of combined symbols, in order.
pub open spec fn subs_view(xs: Seq<CombinedSymbol>) -> Seq<CSymView>
    decreases xs, 0int,
{
    if xs.len() == 0 {
        Seq::empty()
    } else {
        subs_view(xs.subrange(0, xs.len() - 1)).push(sym_view(xs[xs.len() - 1]))
    }
}

pub proof fn lemma_subs_view_push(xs: Seq<CombinedSymbol>, y: CombinedSymbol)
    ensures
        subs_view(xs.push(y)) == subs_view(xs).push(sym_view(y)),
{
    assert(xs.push(y).subrange(0, xs.len() as int) =~= xs);
}

/// One table of a combined symbol table: its symbols, the tables opened in it (by index),
/// the table it was opened in, and its nesting level.
pub struct CombinedSymbolTable {
    pub symbols: Vec<CombinedSymbol>,
    pub subtables: Vec<usize>,
    pub parent: Option<usize>,
    pub level: u16,
}

/// A table as a value.
pub struct CTableModel {
    pub symbols: Seq<CSymView>,
    pub subtables: Seq<usize>,
    pub parent: Option<usize>,
    pub level: u16,
}

impl View for CombinedSymbolTable {
    type V = CTableModel;

    open spec fn view(&self) -> CTableModel {
        CTableModel {
            symbols: subs_view(self.symbols@),
            subtables: self.subtables@,
            parent: self.parent,
            level: self.level,
        }
    }
}

/// The tables of a program, kept together and referring to one another by index (the
/// first is the outermost), and the counter that numbers the functions.
pub struct CombinedSymbolTables {
    pub tables: Vec<CombinedSymbolTable>,
    pub func_counter: u64,
}

/// The tables of a program as values, with the function counter.
pub struct CstModel {
    pub tables: Seq<CTableModel>,
    pub func_counter: u64,
}

impl View for CombinedSymbolTables {
    type V = CstModel;

    open spec fn view(&self) -> CstModel {
        CstModel {
            tables: self.tables@.map_values(|t: CombinedSymbolTable| t@),
            func_counter: self.func_counter,
        }
    }
}

/// The tables hang together: the first is the outermost, at level 0; every other was
/// opened in an earlier table and is one level below it.
pub open spec fn cst_wf(m: Seq<CTableModel>) -> bool {
    &&& m.len() > 0
    &&& m[0].parent is None
    &&& m[0].level == 0
    &&& forall|i: int|
        0 < i < m.len() ==> ((#[trigger] m[i].parent) matches Some(p) && p < i && m[i].level == m[p as int].level
            + 1)
}

/// The symbol as a table at `level` keeps it: in the outermost level it is global.
pub open spec fn placed_sym(level: u16, s: CSymView) -> CSymView {
    if level == 0 {
        CSymView { scope: Scope::Global, ..s }
    } else {
        s
    }
}

/// The tables with `s` added to table `t`.
pub open spec fn add_sym(m: Seq<CTableModel>, t: int, s: CSymView) -> Seq<CTableModel> {
    m.update(t, CTableModel { symbols: m[t].symbols.push(placed_sym(m[t].level, s)), ..m[t] })
}

/// The tables with a new, empty table opened in table `t`, one level below it; the new
/// table comes last.
pub open spec fn open_sub(m: Seq<CTableModel>, t: int) -> Seq<CTableModel> {
    m.update(t, CTableModel { subtables: m[t].subtables.push(m.len() as usize), ..m[t] }).push(
        CTableModel {
            symbols: Seq::empty(),
            subtables: Seq::empty(),
            parent: Some(t as usize),
            level: (m[t].level + 1) as u16,
        },
    )
}

/// The outermost table above table `t`.
pub open spec fn top(m: Seq<CTableModel>, t: int) -> int
    decreases t,
{
    if t < 0 || t >= m.len() {
        t
    } else {
        match m[t].parent {
            Some(p) => if p < t {
                top(m, p as int)
            } else {
                t
            },
            None => t,
        }
    }
}

pub proof fn lemma_top_in(m: Seq<CTableModel>, t: int)
    requires
        0 <= t < m.len(),
    ensures
        0 <= top(m, t) <= t,
    decreases t,
{
    if let Some(p) = m[t].parent {
        if p < t {
            lemma_top_in(m, p as int);
        }
    }
}

proof fn lemma_add_sym_wf(m: Seq<CTableModel>, t: int, s: CSymView)
    requires
        cst_wf(m),
        0 <= t < m.len(),
    ensures
        cst_wf(add_sym(m, t, s)),
{
    let g = add_sym(m, t, s);
    assert forall|i: int| 0 < i < g.len() implies ((#[trigger] g[i].parent) matches Some(p) && p < i && g[i].level
        == g[p as int].level + 1) by {
        assert(m[i].parent matches Some(p) && p < i);
    }
}

proof fn lemma_open_sub_wf(m: Seq<CTableModel>, t: int)
    requires
        cst_wf(m),
        0 <= t < m.len(),
        m[t].level < u16::MAX,
        m.len() <= usize::MAX,
    ensures
        cst_wf(open_sub(m, t)),
{
    let g = open_sub(m, t);
    assert forall|i: int| 0 < i < g.len() implies ((#[trigger] g[i].parent) matches Some(p) && p < i && g[i].level
        == g[p as int].level + 1) by {
        if i < m.len() {
            assert(m[i].parent matches Some(p) && p < i);
            let p = m[i].parent->0;
            assert(g[i].parent == m[i].parent && g[i].level == m[i].level);
            assert(g[p as int].level == m[p as int].level);
        } else {
            assert(g[i].parent == Some(t as usize));
            assert(g[t].level == m[t].level);
        }
    }
}

impl CombinedSymbolTables {
    pub open spec fn wf(&self) -> bool {
        cst_wf(self@.tables)
    }

    /// One outermost table, empty, with the function counter at 0.
    pub fn new() -> (r: CombinedSymbolTables)
        ensures
            r.wf(),
            r@.tables == seq![
                CTableModel {
                    symbols: Seq::empty(),
                    subtables: Seq::empty(),
                    parent: None,
                    level: 0,
                },
            ],
            r@.func_counter == 0,
    {
        let root = CombinedSymbolTable { symbols: Vec::new(), subtables: Vec::new(), parent: None, level: 0 };
        let mut tables: Vec<CombinedSymbolTable> = Vec::new();
        tables.push(root);
        let r = CombinedSymbolTables { tables, func_counter: 0 };
        assert(r@.tables[0].symbols =~= Seq::<CSymView>::empty());
        assert(r@.tables[0].subtables =~= Seq::<usize>::empty());
        assert(r@.tables =~= seq![
            CTableModel {
                symbols: Seq::empty(),
                subtables: Seq::empty(),
                parent: None,
                level: 0,
            },
        ]);
        r
    }

    /// Adds a symbol to table `t`; in the outermost level it becomes global.
    pub fn add_symbol(&mut self, t: usize, symbol: CombinedSymbol)
        requires
            old(self).wf(),
            t < old(self)@.tables.len(),
        ensures
            final(self).wf(),
            final(self)@ == (CstModel { tables: add_sym(old(self)@.tables, t as int, sym_view(symbol)), ..old(self)@ }),
    {
        let ghost m = self@.tables;
        let mut symbol = symbol;
        let ghost s0 = sym_view(symbol);
        if self.tables[t].level == 0 {
            symbol.scope = Scope::Global;
        }
        assert(sym_view(symbol) == placed_sym(m[t as int].level, s0));
        let mut table = self.tables.remove(t);
        let ghost before = table.symbols@;
        table.symbols.push(symbol);
        proof {
            lemma_subs_view_push(before, symbol);
        }
        self.tables.insert(t, table);
        proof {
            assert(self@.tables =~= add_sym(m, t as int, s0));
            lemma_add_sym_wf(m, t as int, s0);
        }
    }

    /// Opens a table in table `t`, one level below it, and gives its index.
    pub fn create_sub_table(&mut self, t: usize) -> (r: usize)
        requires
            old(self).wf(),
            t < old(self)@.tables.len(),
            old(self)@.tables[t as int].level < u16::MAX,
        ensures
            final(self).wf(),
            r == old(self)@.tables.len(),
            final(self)@ == (CstModel { tables: open_sub(old(self)@.tables, t as int), ..old(self)@ }),
    {
        let ghost m = self@.tables;
        let n = self.tables.len();
        let level = self.tables[t].level + 1;
        let sub = CombinedSymbolTable { symbols: Vec::new(), subtables: Vec::new(), parent: Some(t), level };
        self.tables.push(sub);
        let mut table = self.tables.remove(t);
        table.subtables.push(n);
        self.tables.insert(t, table);
        proof {
            assert(subs_view(Seq::<CombinedSymbol>::empty()) =~= Seq::<CSymView>::empty());
            assert(self@.tables =~= open_sub(m, t as int));
            lemma_open_sub_wf(m, t as int);
        }
        n
    }

    /// The outermost table above table `t`.
    pub fn get_highest_table(&self, t: usize) -> (r: usize)
        requires
            self.wf(),
            t < self@.tables.len(),
        ensures
            r as int == top(self@.tables, t as int),
        decreases t,
    {
        let ghost m = self@.tables;
        assert(m[t as int] == self.tables@[t as int]@);
        match self.tables[t].parent {
            Some(p) => {
                if p < t {
                    self.get_highest_table(p)
                } else {
                    t
                }
            },
            None => t,
        }
    }
}


/// Whether a symbol equal to `s` is in table `t` or in a table it was opened in, however
/// far out.
pub open spec fn exists_above(tables: Seq<CombinedSymbolTable>, t: int, s: CombinedSymbol) -> bool
    decreases t,
{
    if t < 0 || t >= tables.len() {
        false
    } else if exists|j: int|
        0 <= j < tables[t].symbols@.len() && symbol_equal(#[trigger] tables[t].symbols@[j], s) {
        true
    } else {
        match tables[t].parent {
            Some(p) => if p < t {
                exists_above(tables, p as int, s)
            } else {
                false
            },
            None => false,
        }
    }
}

impl CombinedSymbolTables {
    /// Whether a symbol equal to `symbol` is in table `t` or in a table it was opened in.
    pub fn check_existence(&self, t: usize, symbol: &CombinedSymbol) -> (r: bool)
        requires
            t < self.tables@.len(),
        ensures
            r == exists_above(self.tables@, t as int, *symbol),
        decreases t,
    {
        let table = &self.tables[t];
        let mut j: usize = 0;
        while j < table.symbols.len()
            invariant
                j <= table.symbols@.len(),
                t < self.tables@.len(),
                *table == self.tables@[t as int],
                forall|k: int| 0 <= k < j ==> !symbol_equal(#[trigger] table.symbols@[k], *symbol),
            decreases table.symbols@.len() - j,
        {
            if table.symbols[j].eq(symbol) {
                assert(symbol_equal(self.tables@[t as int].symbols@[j as int], *symbol));
                return true;
            }
            j = j + 1;
        }
        assert(!exists|k: int|
            0 <= k < self.tables@[t as int].symbols@.len() && symbol_equal(
                #[trigger] self.tables@[t as int].symbols@[k],
                *symbol,
            ));
        match table.parent {
            Some(p) => {
                if p < t {
                    self.check_existence(p, symbol)
                } else {
                    false
                }
            },
            None => false,
        }
    }
}


/// A match under the standard strategy is a match under the lazy one: the standard
/// strategy compares all that the lazy one does, and the sub-symbols besides.
pub proof fn standard_match_is_lazy_match(a: CombinedSymbol, b: CombinedSymbol)
    requires
        spec_scan(a, b, Strategy::STANDARD),
    ensures
        spec_scan(a, b, Strategy::LAZY),
{
}


/// From any table of well-formed combined tables, the outermost table reached is the
/// first one.
pub proof fn highest_combined_table_is_the_first(m: Seq<CTableModel>, t: int)
    requires
        cst_wf(m),
        0 <= t < m.len(),
    ensures
        top(m, t) == 0,
    decreases t,
{
    if t > 0 {
        assert(m[t].parent matches Some(p) && p < t);
        let p = m[t].parent->0;
        highest_combined_table_is_the_first(m, p as int);
    }
}

} // verus!
