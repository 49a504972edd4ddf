use std::rc::Rc;
use vstd::prelude::*;

verus! {

/// Where a symbol was defined: at top level or inside a function scope.
#[derive(Debug, PartialEq, Eq, Clone, Copy)]
pub enum SymbolScope {
    Global,
    Local,
}

/// A named binding together with its scope and the slot it occupies.
#[derive(Debug, PartialEq)]
pub struct Symbol {
    name: String,
    pub scope: SymbolScope,
    pub index: u32,
}

/// What a symbol is: its name as characters, its scope and its slot.
pub struct SymbolView {
    pub name: Seq<char>,
    pub scope: SymbolScope,
    pub index: u32,
}

impl View for Symbol {
    type V = SymbolView;

    closed spec fn view(&self) -> SymbolView {
        SymbolView { name: self.name@, scope: self.scope, index: self.index }
    }
}

impl Symbol {
    pub fn new(name: &str, scope: SymbolScope, index: u32) -> (s: Self)
        ensures
            s@ == (SymbolView { name: name@, scope, index }),
    {
        Symbol { name: String::from_str(name), scope, index }
    }

    /// The scope the symbol was defined in.
    pub fn scope(&self) -> (s: SymbolScope)
        ensures
            s == self@.scope,
    {
        self.scope
    }

    /// The slot the symbol occupies.
    pub fn index(&self) -> (i: u32)
        ensures
            i == self@.index,
    {
        self.index
    }
}

/// `Rc::clone`: a second pointer to the same allocation, so it points to
/// the very same symbol.
#[verifier::external_body]
fn share_symbol(symbol: &Rc<Symbol>) -> (r: Rc<Symbol>)
    ensures
        r == *symbol,
{
    Rc::clone(symbol)
}

/// What a symbol table is: its enclosing table, the symbols defined in it
/// by name, and how many definitions it has made.
pub struct TableView {
    pub outer: Option<Box<TableView>>,
    pub symbols: Map<Seq<char>, SymbolView>,
    pub num_definitions: u32,
}

impl TableView {
    /// What resolving `name` gives: the symbol of this scope, else that of the
    /// nearest enclosing scope that defines it.
    pub open spec fn lookup(self, name: Seq<char>) -> Option<SymbolView>
        decreases self,
    {
        if self.symbols.contains_key(name) {
            Some(self.symbols[name])
        } else {
            match self.outer {
                Some(outer) => outer.lookup(name),
                None => None,
            }
        }
    }

    /// The scope that a symbol defined here gets.
    pub open spec fn scope_here(self) -> SymbolScope {
        if self.outer is Some {
            SymbolScope::Local
        } else {
            SymbolScope::Global
        }
    }

    /// `after` is `before` once `name` has been defined as `symbol`.
    pub open spec fn defines(before: TableView, after: TableView, name: Seq<char>, symbol: SymbolView) -> bool {
        &&& symbol == (SymbolView { name, scope: before.scope_here(), index: before.num_definitions })
        &&& after.symbols == before.symbols.insert(name, symbol)
        &&& after.outer == before.outer
        &&& after.num_definitions == before.num_definitions + 1
    }
}

/// Once `name` is defined, resolving it gives the new symbol, and resolving
/// any other name gives what it gave before.
pub proof fn lemma_resolve_after_define(
    before: TableView,
    after: TableView,
    name: Seq<char>,
    symbol: SymbolView,
    other: Seq<char>,
)
    requires
        TableView::defines(before, after, name, symbol),
    ensures
        after.lookup(name) == Some(symbol),
        other != name ==> after.lookup(other) == before.lookup(other),
{
}

/// Two definitions in a row take consecutive slots in the same scope.
pub proof fn lemma_consecutive_slots(
    t0: TableView,
    t1: TableView,
    t2: TableView,
    a: Seq<char>,
    b: Seq<char>,
    first: SymbolView,
    second: SymbolView,
)
    requires
        TableView::defines(t0, t1, a, first),
        TableView::defines(t1, t2, b, second),
    ensures
        second.index == first.index + 1,
        second.scope == first.scope,
{
}

/// A name defined in a scope hides the same name in enclosing scopes; a name
/// that the scope does not define resolves as in the enclosing scope, and
/// not at all in a scope that has none.
pub proof fn lemma_lookup_through_scopes(t: TableView, name: Seq<char>)
    ensures
        t.symbols.contains_key(name) ==> t.lookup(name) == Some(t.symbols[name]),
        !t.symbols.contains_key(name) ==> t.lookup(name) == match t.outer {
            Some(outer) => outer.lookup(name),
            None => None,
        },
{
}

/// A scope of definitions, possibly nested inside an outer scope.
#[derive(Debug)]
pub struct SymbolTable {
    pub outer: Option<Box<SymbolTable>>,
    store: Vec<Rc<Symbol>>,
    pub num_definitions: u32,
}

spec fn stored_at(store: Seq<Rc<Symbol>>, name: Seq<char>, i: int) -> bool {
    0 <= i < store.len() && store[i].name@ == name
}

/// The stored symbols, by name.
spec fn by_name(store: Seq<Rc<Symbol>>) -> Map<Seq<char>, SymbolView> {
    Map::new(
        |name: Seq<char>| exists|i: int| stored_at(store, name, i),
        |name: Seq<char>| store[choose|i: int| stored_at(store, name, i)]@,
    )
}

impl View for SymbolTable {
    type V = TableView;

    closed spec fn view(&self) -> TableView {
        self.table_view()
    }
}

impl SymbolTable {
    /// No two stored symbols share a name, here and in every enclosing scope.
    pub closed spec fn wf(&self) -> bool
        decreases self,
    {
        &&& forall|i: int, j: int|
            0 <= i < j < self.store@.len() ==> (#[trigger] self.store@[i]).name@
                != (#[trigger] self.store@[j]).name@
        &&& match self.outer {
            Some(outer) => outer.wf(),
            None => true,
        }
    }

    spec fn symbols(&self) -> Map<Seq<char>, SymbolView> {
        by_name(self.store@)
    }

    spec fn table_view(&self) -> TableView
        decreases self,
    {
        TableView {
            outer: match self.outer {
                Some(outer) => Some(Box::new(outer.table_view())),
                None => None,
            },
            symbols: self.symbols(),
            num_definitions: self.num_definitions,
        }
    }

    /// The enclosing table, if there is one.
    pub fn outer(&self) -> (o: Option<&SymbolTable>)
        ensures
            match o {
                Some(t) => self@.outer == Some(Box::new(t@)),
                None => self@.outer is None,
            },
            o matches Some(t) ==> (self.wf() ==> t.wf()),
    {
        match &self.outer {
            Some(outer) => Some(&**outer),
            None => None,
        }
    }

    /// How many definitions this table has made.
    pub fn num_definitions(&self) -> (n: u32)
        ensures
            n == self@.num_definitions,
    {
        self.num_definitions
    }

    pub fn new() -> (t: Self)
        ensures
            t.wf(),
            t@ == (TableView { outer: None, symbols: Map::empty(), num_definitions: 0 }),
    {
        let t = SymbolTable { outer: None, store: Vec::new(), num_definitions: 0 };
        assert(t.symbols() =~= Map::<Seq<char>, SymbolView>::empty());
        t
    }

    pub fn new_enclosed(table: SymbolTable) -> (t: Self)
        requires
            table.wf(),
        ensures
            t.wf(),
            t@ == (TableView { outer: Some(Box::new(table@)), symbols: Map::empty(), num_definitions: 0 }),
    {
        let new = SymbolTable { outer: Some(Box::new(table)), store: Vec::new(), num_definitions: 0 };
        assert(new.symbols() =~= Map::<Seq<char>, SymbolView>::empty());
        new
    }

    /// The position of `name` in the store, if it is there.
    fn position(&self, name: &String) -> (r: Option<usize>)
        requires
            self.wf(),
        ensures
            match r {
                Some(i) => stored_at(self.store@, name@, i as int),
                None => !self.symbols().contains_key(name@),
            },
    {
        let mut i: usize = 0;
        while i < self.store.len()
            invariant
                i <= self.store@.len(),
                forall|j: int| 0 <= j < i ==> !stored_at(self.store@, name@, j),
            decreases self.store@.len() - i,
        {
            if self.store[i].name == *name {
                return Some(i);
            }
            i = i + 1;
        }
        None
    }

    pub fn define(&mut self, name: String) -> (symbol: Rc<Symbol>)
        requires
            old(self).wf(),
            old(self)@.num_definitions < u32::MAX,
        ensures
            final(self).wf(),
            TableView::defines(old(self)@, final(self)@, name@, symbol@),
    {
        let scope = match &self.outer {
            Some(_) => SymbolScope::Local,
            None => SymbolScope::Global,
        };
        let symbol = Rc::new(Symbol::new(name.as_str(), scope, self.num_definitions));
        let stored = share_symbol(&symbol);
        let ghost before = *self;
        match self.position(&name) {
            Some(i) => {
                self.store.set(i, stored);
                proof {
                    assert forall|a: int, b: int| 0 <= a < b < self.store@.len() implies
                        (#[trigger] self.store@[a]).name@ != (#[trigger] self.store@[b]).name@ by {
                        assert(before.store@[a].name@ != before.store@[b].name@);
                    }
                    assert forall|k: Seq<char>| #[trigger]
                        self.symbols().contains_key(k) == before.symbols().insert(name@, symbol@).contains_key(k) by {
                        if k != name@ {
                            if before.symbols().contains_key(k) {
                                let j = choose|j: int| stored_at(before.store@, k, j);
                                assert(stored_at(self.store@, k, j));
                            }
                            if self.symbols().contains_key(k) {
                                let j = choose|j: int| stored_at(self.store@, k, j);
                                assert(stored_at(before.store@, k, j));
                            }
                        } else {
                            assert(stored_at(self.store@, k, i as int));
                        }
                    }
                    assert forall|k: Seq<char>| #[trigger] self.symbols().contains_key(k) implies
                        self.symbols()[k] == before.symbols().insert(name@, symbol@)[k] by {
                        let j = choose|j: int| stored_at(self.store@, k, j);
                        if k == name@ {
                            assert(j == i);
                        } else {
                            assert(stored_at(before.store@, k, j));
                            let j2 = choose|j2: int| stored_at(before.store@, k, j2);
                            assert(j2 == j);
                        }
                    }
                    assert(self.symbols() =~= before.symbols().insert(name@, symbol@));
                }
            },
            None => {
                self.store.push(stored);
                proof {
                    let n = before.store@.len() as int;
                    assert forall|a: int, b: int| 0 <= a < b < self.store@.len() implies
                        (#[trigger] self.store@[a]).name@ != (#[trigger] self.store@[b]).name@ by {
                        if b == n {
                            assert(!stored_at(before.store@, name@, a));
                        } else {
                            assert(before.store@[a].name@ != before.store@[b].name@);
                        }
                    }
                    assert forall|k: Seq<char>| #[trigger]
                        self.symbols().contains_key(k) == before.symbols().insert(name@, symbol@).contains_key(k) by {
                        if k != name@ {
                            if before.symbols().contains_key(k) {
                                let j = choose|j: int| stored_at(before.store@, k, j);
                                assert(stored_at(self.store@, k, j));
                            }
                            if self.symbols().contains_key(k) {
                                let j = choose|j: int| stored_at(self.store@, k, j);
                                assert(stored_at(before.store@, k, j));
                            }
                        } else {
                            assert(stored_at(self.store@, k, n));
                        }
                    }
                    assert forall|k: Seq<char>| #[trigger] self.symbols().contains_key(k) implies
                        self.symbols()[k] == before.symbols().insert(name@, symbol@)[k] by {
                        let j = choose|j: int| stored_at(self.store@, k, j);
                        if k == name@ {
                            if j != n {
                                assert(stored_at(before.store@, k, j));
                            }
                        } else {
                            assert(stored_at(before.store@, k, j));
                            let j2 = choose|j2: int| stored_at(before.store@, k, j2);
                            if j2 != j {
                                assert(stored_at(self.store@, k, j2));
                            }
                        }
                    }
                    assert(self.symbols() =~= before.symbols().insert(name@, symbol@));
                }
            },
        }
        self.num_definitions = self.num_definitions + 1;
        symbol
    }

    fn find(&self, name: &String) -> (r: Option<Rc<Symbol>>)
        requires
            self.wf(),
        ensures
            match r {
                Some(s) => self@.lookup(name@) == Some(s@),
                None => self@.lookup(name@) is None,
            },
        decreases self,
    {
        match self.position(name) {
            Some(i) => {
                proof {
                    let j = choose|j: int| stored_at(self.store@, name@, j);
                    assert(j == i);
                }
                Some(share_symbol(&self.store[i]))
            },
            None => match &self.outer {
                Some(outer) => outer.find(name),
                None => None,
            },
        }
    }

    pub fn resolve(&mut self, name: String) -> (r: Option<Rc<Symbol>>)
        requires
            old(self).wf(),
        ensures
            *final(self) == *old(self),
            match r {
                Some(s) => old(self)@.lookup(name@) == Some(s@),
                None => old(self)@.lookup(name@) is None,
            },
    {
        self.find(&name)
    }
}

impl SymbolTable {
    /// A copy of the table, enclosing tables included, whose store shares the
    /// same symbols.
    fn copy_table(&self) -> (t: SymbolTable)
        ensures
            t@ == self@,
            t.wf() == self.wf(),
        decreases self,
    {
        let outer = match &self.outer {
            Some(outer) => Some(Box::new(outer.copy_table())),
            None => None,
        };
        let mut store: Vec<Rc<Symbol>> = Vec::new();
        let mut i: usize = 0;
        while i < self.store.len()
            invariant
                i <= self.store@.len(),
                store@ == self.store@.take(i as int),
            decreases self.store@.len() - i,
        {
            store.push(share_symbol(&self.store[i]));
            assert(store@ =~= self.store@.take(i + 1));
            i = i + 1;
        }
        assert(store@ =~= self.store@);
        SymbolTable { outer, store, num_definitions: self.num_definitions }
    }
}

impl Clone for SymbolTable {
    fn clone(&self) -> (t: Self)
        ensures
            t@ == self@,
            t.wf() == self.wf(),
    {
        self.copy_table()
    }
}

/// `s` is the symbol stored under its name in `store`, taking the first
/// entry of that name.
spec fn found_in(store: Seq<Rc<Symbol>>, s: SymbolView) -> bool {
    exists|j: int|
        #![trigger store[j]]
        stored_at(store, s.name, j) && (forall|k: int| 0 <= k < j ==> !stored_at(store, s.name, k))
            && store[j]@ == s
}

/// Every symbol of each store is stored under its name in the other.
spec fn stores_match(a: Seq<Rc<Symbol>>, b: Seq<Rc<Symbol>>) -> bool {
    &&& forall|i: int| 0 <= i < a.len() ==> found_in(b, #[trigger] a[i]@)
    &&& forall|j: int| 0 <= j < b.len() ==> found_in(a, #[trigger] b[j]@)
}

/// What `==` on symbol tables compares: the definition counts, the symbols
/// by name, and the enclosing tables.
pub closed spec fn tables_match(a: SymbolTable, b: SymbolTable) -> bool
    decreases a,
{
    &&& match (a.outer, b.outer) {
        (None, None) => true,
        (Some(x), Some(y)) => tables_match(*x, *y),
        _ => false,
    }
    &&& stores_match(a.store@, b.store@)
    &&& a.num_definitions == b.num_definitions
}

/// Two tables compare equal exactly when they hold the same symbols by name,
/// have made as many definitions and have equal enclosing tables.
pub proof fn lemma_equal_tables(a: SymbolTable, b: SymbolTable)
    requires
        a.wf(),
        b.wf(),
    ensures
        tables_match(a, b) <==> a@ == b@,
    decreases a,
{
    if let (Some(x), Some(y)) = (a.outer, b.outer) {
        lemma_equal_tables(*x, *y);
    }
    let sa = a.store@;
    let sb = b.store@;
    if stores_match(sa, sb) {
        assert forall|k: Seq<char>| #[trigger] by_name(sa).contains_key(k) == by_name(sb).contains_key(k) by {
            if by_name(sa).contains_key(k) {
                let i = choose|i: int| stored_at(sa, k, i);
                assert(found_in(sb, sa[i]@));
            }
            if by_name(sb).contains_key(k) {
                let j = choose|j: int| stored_at(sb, k, j);
                assert(found_in(sa, sb[j]@));
            }
        }
        assert forall|k: Seq<char>| #[trigger] by_name(sa).contains_key(k) implies
            by_name(sa)[k] == by_name(sb)[k] by {
            let i = choose|i: int| stored_at(sa, k, i);
            assert(found_in(sb, sa[i]@));
            let j = choose|j: int|
                stored_at(sb, k, j) && (forall|m: int| 0 <= m < j ==> !stored_at(sb, k, m)) && sb[j]@ == sa[i]@;
            let j2 = choose|j2: int| stored_at(sb, k, j2);
            assert(j2 == j);
        }
        assert(by_name(sa) =~= by_name(sb));
    }
    if by_name(sa) == by_name(sb) {
        assert forall|i: int| 0 <= i < sa.len() implies found_in(sb, #[trigger] sa[i]@) by {
            let k = sa[i].name@;
            assert(stored_at(sa, k, i));
            assert(by_name(sa).contains_key(k));
            let j = choose|j: int| stored_at(sb, k, j);
            let i2 = choose|i2: int| stored_at(sa, k, i2);
            assert(i2 == i);
            assert(by_name(sa)[k] == sa[i]@);
            assert(by_name(sb)[k] == sb[j]@);
            assert(forall|m: int| 0 <= m < j ==> !stored_at(sb, k, m));
            assert(stored_at(sb, k, j) && sb[j]@ == sa[i]@);
        }
        assert forall|j: int| 0 <= j < sb.len() implies found_in(sa, #[trigger] sb[j]@) by {
            let k = sb[j].name@;
            assert(stored_at(sb, k, j));
            assert(by_name(sb).contains_key(k));
            let i = choose|i: int| stored_at(sa, k, i);
            let j2 = choose|j2: int| stored_at(sb, k, j2);
            assert(j2 == j);
            assert(by_name(sa)[k] == sa[i]@);
            assert(by_name(sb)[k] == sb[j]@);
            assert(forall|m: int| 0 <= m < i ==> !stored_at(sa, k, m));
            assert(stored_at(sa, k, i) && sa[i]@ == sb[j]@);
        }
    }
}

fn same_symbol(a: &Symbol, b: &Symbol) -> (r: bool)
    ensures
        r == (a@ == b@),
{
    let same_scope = match (a.scope, b.scope) {
        (SymbolScope::Global, SymbolScope::Global) => true,
        (SymbolScope::Local, SymbolScope::Local) => true,
        _ => false,
    };
    a.name == b.name && same_scope && a.index == b.index
}

fn found_in_store(store: &Vec<Rc<Symbol>>, s: &Symbol) -> (r: bool)
    ensures
        r == found_in(store@, s@),
{
    let mut j: usize = 0;
    while j < store.len()
        invariant
            j <= store@.len(),
            forall|k: int| 0 <= k < j ==> !stored_at(store@, s@.name, k),
        decreases store@.len() - j,
    {
        if store[j].name == s.name {
            let r = same_symbol(&store[j], s);
            proof {
                if !r {
                    if found_in(store@, s@) {
                        let m = choose|m: int|
                            #![trigger store@[m]]
                            stored_at(store@, s@.name, m) && (forall|k: int| 0 <= k < m ==> !stored_at(store@, s@.name, k))
                                && store@[m]@ == s@;
                        assert(!(m < j));
                        assert(!(j < m)) by {
                            assert(stored_at(store@, s@.name, j as int));
                        }
                    }
                } else {
                    assert(stored_at(store@, s@.name, j as int));
                }
            }
            return r;
        }
        j = j + 1;
    }
    false
}

fn every_found_in(a: &Vec<Rc<Symbol>>, b: &Vec<Rc<Symbol>>) -> (r: bool)
    ensures
        r == (forall|i: int| 0 <= i < a@.len() ==> found_in(b@, #[trigger] a@[i]@)),
{
    let mut i: usize = 0;
    while i < a.len()
        invariant
            i <= a@.len(),
            forall|m: int| 0 <= m < i ==> found_in(b@, #[trigger] a@[m]@),
        decreases a@.len() - i,
    {
        if !found_in_store(b, &a[i]) {
            return false;
        }
        i = i + 1;
    }
    true
}

impl SymbolTable {
    fn same_table(&self, other: &SymbolTable) -> (r: bool)
        ensures
            r == tables_match(*self, *other),
        decreases self,
    {
        let outer_same = match (&self.outer, &other.outer) {
            (None, None) => true,
            (Some(x), Some(y)) => x.same_table(y),
            _ => false,
        };
        outer_same && every_found_in(&self.store, &other.store) && every_found_in(&other.store, &self.store)
            && self.num_definitions == other.num_definitions
    }
}

impl PartialEq for SymbolTable {
    fn eq(&self, other: &Self) -> (r: bool) {
        self.same_table(other)
    }
}

impl vstd::std_specs::cmp::PartialEqSpecImpl for SymbolTable {
    open spec fn obeys_eq_spec() -> bool {
        true
    }

    open spec fn eq_spec(&self, other: &SymbolTable) -> bool {
        tables_match(*self, *other)
    }
}

impl Default for SymbolTable {
    fn default() -> (t: Self)
        ensures
            t.wf(),
            t@ == (TableView { outer: None, symbols: Map::empty(), num_definitions: 0 }),
    {
        SymbolTable::new()
    }
}

} // verus!
