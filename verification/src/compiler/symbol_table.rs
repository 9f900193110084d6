//! Symbol tables: the lexical scopes that resolve identifiers to the operands
//! of load and store instructions.
use crate::object::builtins::{builtin_name, builtin_name_of, BUILTIN_COUNT};
use vstd::prelude::*;
use vstd::string::StringExecFns;

verus! {

/// Where a symbol lives, which decides the instruction that loads it.
#[derive(Clone, Copy, Debug, PartialEq, Eq, Structural)]
pub enum SymbolScope {
    Global,
    Local,
    Builtin,
    Free,
    Function,
}

pub const GLOBAL_SCOPE: SymbolScope = SymbolScope::Global;

pub const LOCAL_SCOPE: SymbolScope = SymbolScope::Local;

pub const BUILTIN_SCOPE: SymbolScope = SymbolScope::Builtin;

pub const FREE_SCOPE: SymbolScope = SymbolScope::Free;

pub const FUNCTION_SCOPE: SymbolScope = SymbolScope::Function;

/// A name bound in some scope, with the index by which instructions refer to
/// it.
#[derive(Debug, PartialEq, Eq)]
pub struct Symbol {
    pub name: String,
    pub scope: SymbolScope,
    pub index: usize,
}

/// A symbol as a mathematical value.
pub struct SymbolView {
    pub name: Seq<char>,
    pub scope: SymbolScope,
    pub index: usize,
}

impl View for Symbol {
    type V = SymbolView;

    open spec fn view(&self) -> SymbolView {
        SymbolView { name: self.name@, scope: self.scope, index: self.index }
    }
}

impl Symbol {
    /// A symbol with the given name, scope and index.
    pub fn new(name: &str, scope: SymbolScope, index: usize) -> (s: Self)
        ensures
            s@ == (SymbolView { name: name@, scope, index }),
    {
        Symbol { name: String::from_str(name), scope, index }
    }

    /// A copy of the symbol.
    pub fn duplicate(&self) -> (s: Self)
        ensures
            s@ == self@,
    {
        Symbol { name: self.name.clone(), scope: self.scope, index: self.index }
    }
}

/// The views of a sequence of symbols.
pub open spec fn symbol_views(symbols: Seq<Symbol>) -> Seq<SymbolView> {
    Seq::new(symbols.len(), |i: int| symbols[i]@)
}

/// The map from names to symbols that a list of entries stands for.
pub open spec fn store_view(entries: Seq<Symbol>) -> Map<Seq<char>, SymbolView> {
    Map::new(
        |name: Seq<char>| exists|i: int| 0 <= i < entries.len() && entries[i].name@ == name,
        |name: Seq<char>|
            entries[choose|i: int| 0 <= i < entries.len() && entries[i].name@ == name]@,
    )
}

/// The bindings of one scope, and the number of definitions made in it.
#[derive(Debug)]
pub struct SymbolTableDefinition {
    pub store: Vec<Symbol>,
    pub num_definitions: usize,
}

/// The bindings of one scope as a mathematical value.
pub struct DefinitionView {
    pub store: Map<Seq<char>, SymbolView>,
    pub num_definitions: nat,
}

impl View for SymbolTableDefinition {
    type V = DefinitionView;

    open spec fn view(&self) -> DefinitionView {
        DefinitionView {
            store: store_view(self.store@),
            num_definitions: self.num_definitions as nat,
        }
    }
}

/// What `define` does to the bindings of a scope: the name is bound to a
/// symbol with the next definition index, LOCAL if the scope is enclosed and
/// GLOBAL if it is not, and the number of definitions grows by one.
pub open spec fn define_in(d: DefinitionView, name: Seq<char>, enclosed: bool) -> (
    DefinitionView,
    SymbolView,
) {
    let symbol = SymbolView {
        name,
        scope: if enclosed {
            SymbolScope::Local
        } else {
            SymbolScope::Global
        },
        index: d.num_definitions as usize,
    };
    (
        DefinitionView {
            store: d.store.insert(name, symbol),
            num_definitions: d.num_definitions + 1,
        },
        symbol,
    )
}

impl SymbolTableDefinition {
    /// No name is bound twice.
    pub open spec fn wf(&self) -> bool {
        forall|i: int, j: int|
            0 <= i < j < self.store@.len() ==> self.store@[i].name@ != self.store@[j].name@
    }

    /// Whether no name is bound twice.
    pub fn is_well_formed(&self) -> (b: bool)
        ensures
            b == self.wf(),
    {
        let mut j: usize = 0;
        while j < self.store.len()
            invariant
                j <= self.store@.len(),
                forall|a: int, b: int|
                    0 <= a < b < j ==> self.store@[a].name@ != self.store@[b].name@,
            decreases self.store@.len() - j,
        {
            let mut i: usize = 0;
            while i < j
                invariant
                    i <= j < self.store@.len(),
                    forall|a: int| 0 <= a < i ==> self.store@[a].name@ != self.store@[j as int].name@,
                decreases j - i,
            {
                if self.store[i].name == self.store[j].name {
                    return false;
                }
                i += 1;
            }
            j += 1;
        }
        true
    }

    /// Bindings without any entry.
    pub fn empty() -> (d: Self)
        ensures
            d.wf(),
            d@ == (DefinitionView { store: Map::empty(), num_definitions: 0 }),
    {
        let d = SymbolTableDefinition { store: Vec::new(), num_definitions: 0 };
        assert(d@.store =~= Map::empty());
        d
    }

    /// The symbol bound to `name`, if any.
    pub fn get(&self, name: &str) -> (r: Option<Symbol>)
        requires
            self.wf(),
        ensures
            match r {
                Some(s) => self@.store.contains_key(name@) && s@ == self@.store[name@],
                None => !self@.store.contains_key(name@),
            },
    {
        let key = String::from_str(name);
        let mut i: usize = 0;
        while i < self.store.len()
            invariant
                self.wf(),
                key@ == name@,
                i <= self.store@.len(),
                forall|j: int| 0 <= j < i ==> self.store@[j].name@ != name@,
            decreases self.store@.len() - i,
        {
            if self.store[i].name == key {
                proof {
                    lemma_store_view_at(self.store@, i as int);
                }
                return Some(self.store[i].duplicate());
            }
            i += 1;
        }
        None
    }

    /// Binds the symbol's name to the symbol, in place of an earlier binding
    /// of that name.
    pub fn insert(&mut self, symbol: Symbol)
        requires
            old(self).wf(),
        ensures
            final(self).wf(),
            final(self)@.store == old(self)@.store.insert(symbol.name@, symbol@),
            final(self).num_definitions == old(self).num_definitions,
    {
        let mut i: usize = 0;
        while i < self.store.len()
            invariant
                self.wf(),
                *self == *old(self),
                i <= self.store@.len(),
                forall|j: int| 0 <= j < i ==> self.store@[j].name@ != symbol.name@,
            decreases self.store@.len() - i,
        {
            if self.store[i].name == symbol.name {
                let ghost before = self.store@;
                self.store[i] = symbol;
                proof {
                    lemma_store_view_update(before, i as int, symbol);
                }
                return ;
            }
            i += 1;
        }
        let ghost before = self.store@;
        self.store.push(symbol);
        proof {
            lemma_store_view_push(before, symbol);
        }
    }

    /// Creates and stores a new definition of `name`.
    pub fn define(&mut self, name: &str, outer_exists: bool) -> (symbol: Symbol)
        requires
            old(self).wf(),
            old(self).num_definitions < usize::MAX,
        ensures
            final(self).wf(),
            (final(self)@, symbol@) == define_in(old(self)@, name@, outer_exists),
    {
        let scope = if outer_exists {
            SymbolScope::Local
        } else {
            SymbolScope::Global
        };
        let symbol = Symbol::new(name, scope, self.num_definitions);
        self.insert(symbol.duplicate());
        self.num_definitions += 1;
        symbol
    }
}

/// In a list without repeated names, each entry is what its name is bound to.
pub proof fn lemma_store_view_at(entries: Seq<Symbol>, i: int)
    requires
        0 <= i < entries.len(),
        forall|a: int, b: int| 0 <= a < b < entries.len() ==> entries[a].name@ != entries[b].name@,
    ensures
        store_view(entries).contains_key(entries[i].name@),
        store_view(entries)[entries[i].name@] == entries[i]@,
{
    let name = entries[i].name@;
    let j = choose|j: int| 0 <= j < entries.len() && entries[j].name@ == name;
    assert(j == i) by {
        if j < i {
            assert(entries[j].name@ != entries[i].name@);
        } else if i < j {
            assert(entries[i].name@ != entries[j].name@);
        }
    }
}

/// Replacing the entry of a name rebinds that name and no other.
proof fn lemma_store_view_update(entries: Seq<Symbol>, i: int, symbol: Symbol)
    requires
        0 <= i < entries.len(),
        entries[i].name@ == symbol.name@,
        forall|a: int, b: int| 0 <= a < b < entries.len() ==> entries[a].name@ != entries[b].name@,
    ensures
        forall|a: int, b: int|
            0 <= a < b < entries.len() ==> entries.update(i, symbol)[a].name@ != entries.update(
                i,
                symbol,
            )[b].name@,
        store_view(entries.update(i, symbol)) == store_view(entries).insert(symbol.name@, symbol@),
{
    let updated = entries.update(i, symbol);
    assert forall|a: int, b: int| 0 <= a < b < updated.len() implies updated[a].name@
        != updated[b].name@ by {
        assert(updated[a].name@ == entries[a].name@);
        assert(updated[b].name@ == entries[b].name@);
    }
    let lhs = store_view(updated);
    let rhs = store_view(entries).insert(symbol.name@, symbol@);
    assert forall|name: Seq<char>| lhs.contains_key(name) <==> rhs.contains_key(name) by {
        if lhs.contains_key(name) {
            let j = choose|j: int| 0 <= j < updated.len() && updated[j].name@ == name;
            assert(entries[j].name@ == name);
        }
        if rhs.contains_key(name) {
            if name == symbol.name@ {
                assert(updated[i].name@ == name);
            } else {
                let j = choose|j: int| 0 <= j < entries.len() && entries[j].name@ == name;
                assert(updated[j].name@ == name);
            }
        }
    }
    assert forall|name: Seq<char>| lhs.contains_key(name) implies lhs[name] == rhs[name] by {
        let j = choose|j: int| 0 <= j < updated.len() && updated[j].name@ == name;
        lemma_store_view_at(updated, j);
        if j != i {
            lemma_store_view_at(entries, j);
        }
    }
    assert(lhs =~= rhs);
}

/// Appending an entry with a new name binds that name and no other.
proof fn lemma_store_view_push(entries: Seq<Symbol>, symbol: Symbol)
    requires
        forall|a: int| 0 <= a < entries.len() ==> entries[a].name@ != symbol.name@,
        forall|a: int, b: int| 0 <= a < b < entries.len() ==> entries[a].name@ != entries[b].name@,
    ensures
        forall|a: int, b: int|
            0 <= a < b < entries.len() + 1 ==> entries.push(symbol)[a].name@ != entries.push(
                symbol,
            )[b].name@,
        store_view(entries.push(symbol)) == store_view(entries).insert(symbol.name@, symbol@),
{
    let pushed = entries.push(symbol);
    assert forall|a: int, b: int| 0 <= a < b < pushed.len() implies pushed[a].name@
        != pushed[b].name@ by {
        if b < entries.len() {
            assert(pushed[a].name@ == entries[a].name@);
            assert(pushed[b].name@ == entries[b].name@);
        }
    }
    let lhs = store_view(pushed);
    let rhs = store_view(entries).insert(symbol.name@, symbol@);
    assert forall|name: Seq<char>| lhs.contains_key(name) <==> rhs.contains_key(name) by {
        if lhs.contains_key(name) {
            let j = choose|j: int| 0 <= j < pushed.len() && pushed[j].name@ == name;
            if j < entries.len() {
                assert(entries[j].name@ == name);
            }
        }
        if rhs.contains_key(name) {
            if name == symbol.name@ {
                assert(pushed[entries.len() as int].name@ == name);
            } else {
                let j = choose|j: int| 0 <= j < entries.len() && entries[j].name@ == name;
                assert(pushed[j].name@ == name);
            }
        }
    }
    assert forall|name: Seq<char>| lhs.contains_key(name) implies lhs[name] == rhs[name] by {
        let j = choose|j: int| 0 <= j < pushed.len() && pushed[j].name@ == name;
        lemma_store_view_at(pushed, j);
        if j < entries.len() {
            lemma_store_view_at(entries, j);
        }
    }
    assert(lhs =~= rhs);
}


/// A lexical scope: its own bindings, the scope that encloses it, and the
/// symbols of enclosing functions that it has captured.
#[derive(Debug)]
pub struct SymbolTable {
    pub table: SymbolTableDefinition,
    pub outer: Option<Box<SymbolTable>>,
    pub free_symbols: Vec<Symbol>,
}

/// A chain of scopes as a mathematical value.
pub struct TableView {
    pub store: Map<Seq<char>, SymbolView>,
    pub num_definitions: nat,
    pub outer: Option<Box<TableView>>,
    pub free_symbols: Seq<SymbolView>,
}

/// The bindings that every new scope starts with: the builtin functions,
/// each under its name and with its index.
pub open spec fn builtin_store(count: int) -> Map<Seq<char>, SymbolView>
    decreases count,
{
    if count <= 0 {
        Map::empty()
    } else {
        builtin_store(count - 1).insert(
            builtin_name_of(count),
            SymbolView {
                name: builtin_name_of(count),
                scope: SymbolScope::Builtin,
                index: count as usize,
            },
        )
    }
}

/// A scope that encloses nothing and is enclosed by nothing.
pub open spec fn new_table() -> TableView {
    TableView {
        store: builtin_store(BUILTIN_COUNT as int),
        num_definitions: 0,
        outer: None,
        free_symbols: Seq::empty(),
    }
}

/// A fresh scope inside `outer`.
pub open spec fn enclosed_table(outer: TableView) -> TableView {
    TableView { outer: Some(Box::new(outer)), ..new_table() }
}

/// What `define` does to a scope.
pub open spec fn define_symbol(t: TableView, name: Seq<char>) -> (TableView, SymbolView) {
    let (d, symbol) = define_in(
        DefinitionView { store: t.store, num_definitions: t.num_definitions },
        name,
        t.outer is Some,
    );
    (TableView { store: d.store, num_definitions: d.num_definitions, ..t }, symbol)
}

/// What binding `name` to a symbol of the given scope and index does to a
/// scope: the definition counter stays as it is.
pub open spec fn bind_symbol(t: TableView, symbol: SymbolView) -> TableView {
    TableView { store: t.store.insert(symbol.name, symbol), ..t }
}

/// What `define_free` does to a scope: the symbol that was found outside is
/// appended to the captured symbols, and its name is bound to a FREE symbol
/// whose index is the position of that symbol among them.
pub open spec fn capture_symbol(t: TableView, found: SymbolView) -> (TableView, SymbolView) {
    let symbol = SymbolView {
        name: found.name,
        scope: SymbolScope::Free,
        index: t.free_symbols.len() as usize,
    };
    (
        TableView {
            store: t.store.insert(found.name, symbol),
            free_symbols: t.free_symbols.push(found),
            ..t
        },
        symbol,
    )
}

/// What `resolve` finds for `name` and what it leaves behind. The scope's own
/// bindings are searched first, then the enclosing scopes from the inside
/// out. A GLOBAL or BUILTIN symbol found outside is handed on as it is; any
/// other symbol found outside is captured by every scope on the way back in.
pub open spec fn resolve_symbol(t: TableView, name: Seq<char>) -> (TableView, Option<SymbolView>)
    decreases t,
{
    if t.store.contains_key(name) {
        (t, Some(t.store[name]))
    } else {
        match t.outer {
            None => (t, None),
            Some(outer) => {
                let (outer_after, found) = resolve_symbol(*outer, name);
                let after = TableView { outer: Some(Box::new(outer_after)), ..t };
                match found {
                    None => (after, None),
                    Some(symbol) => {
                        if symbol.scope == SymbolScope::Global || symbol.scope
                            == SymbolScope::Builtin {
                            (after, Some(symbol))
                        } else {
                            let (captured, free) = capture_symbol(after, symbol);
                            (captured, Some(free))
                        }
                    },
                }
            },
        }
    }
}

/// The number of scopes that enclose this one.
pub open spec fn table_depth(t: TableView) -> nat
    decreases t,
{
    match t.outer {
        None => 0,
        Some(outer) => 1 + table_depth(*outer),
    }
}

/// The chain of scopes that a symbol table stands for.
pub open spec fn table_view(t: SymbolTable) -> TableView
    decreases t,
{
    TableView {
        store: t.table@.store,
        num_definitions: t.table@.num_definitions,
        outer: match t.outer {
            None => None,
            Some(outer) => Some(Box::new(table_view(*outer))),
        },
        free_symbols: symbol_views(t.free_symbols@),
    }
}

impl View for SymbolTable {
    type V = TableView;

    open spec fn view(&self) -> TableView {
        table_view(*self)
    }
}

impl SymbolTable {
    /// In this scope and in every enclosing one, no name is bound twice.
    pub open spec fn wf(&self) -> bool
        decreases self,
    {
        &&& self.table.wf()
        &&& match self.outer {
            None => true,
            Some(outer) => outer.wf(),
        }
    }

    /// Whether no scope of the chain binds a name twice.
    pub fn is_well_formed(&self) -> (b: bool)
        ensures
            b == self.wf(),
        decreases self,
    {
        if !self.table.is_well_formed() {
            return false;
        }
        match &self.outer {
            None => true,
            Some(outer) => outer.is_well_formed(),
        }
    }

    /// Whether at least `n` scopes enclose this one.
    pub fn encloses(&self, n: usize) -> (b: bool)
        ensures
            b == (table_depth(self@) >= n),
        decreases self,
    {
        if n == 0 {
            return true;
        }
        match &self.outer {
            None => false,
            Some(outer) => outer.encloses(n - 1),
        }
    }

    /// Creates a new symbol table that holds the builtin functions.
    pub fn new() -> (t: Self)
        ensures
            t.wf(),
            t@ == new_table(),
    {
        let mut t = SymbolTable {
            table: SymbolTableDefinition::empty(),
            outer: None,
            free_symbols: Vec::new(),
        };
        assert(t@.free_symbols =~= Seq::empty());
        let mut i: usize = 1;
        while i <= BUILTIN_COUNT
            invariant
                1 <= i <= BUILTIN_COUNT + 1,
                t.wf(),
                t@ == (TableView { store: builtin_store(i as int - 1), ..new_table() }),
            decreases BUILTIN_COUNT + 1 - i,
        {
            match builtin_name(i) {
                Some(name) => {
                    t.define_builtin(i, name);
                },
                None => {},
            }
            i += 1;
        }
        t
    }

    /// Creates a new symbol table enclosed by `outer`.
    pub fn new_enclosed(outer: SymbolTable) -> (t: Self)
        requires
            outer.wf(),
        ensures
            t.wf(),
            t@ == enclosed_table(outer@),
    {
        let mut t = Self::new();
        t.outer = Some(Box::new(outer));
        t
    }

    /// Defines `name` in this scope: LOCAL if the scope is enclosed, GLOBAL
    /// if it is not, with the next definition index.
    pub fn define(&mut self, name: &str) -> (symbol: Symbol)
        requires
            old(self).wf(),
            old(self)@.num_definitions < usize::MAX,
        ensures
            final(self).wf(),
            (final(self)@, symbol@) == define_symbol(old(self)@, name@),
    {
        let enclosed = self.outer.is_some();
        self.table.define(name, enclosed)
    }

    /// Binds `name` to the builtin function with the given index.
    pub fn define_builtin(&mut self, index: usize, name: &str) -> (symbol: Symbol)
        requires
            old(self).wf(),
        ensures
            final(self).wf(),
            symbol@ == (SymbolView { name: name@, scope: SymbolScope::Builtin, index }),
            final(self)@ == bind_symbol(old(self)@, symbol@),
    {
        let symbol = Symbol::new(name, SymbolScope::Builtin, index);
        self.table.insert(symbol.duplicate());
        symbol
    }

    /// Binds `name` to the function that is being compiled, so that its body
    /// can refer to it.
    pub fn define_function_name(&mut self, name: &str) -> (symbol: Symbol)
        requires
            old(self).wf(),
        ensures
            final(self).wf(),
            symbol@ == (SymbolView { name: name@, scope: SymbolScope::Function, index: 0 }),
            final(self)@ == bind_symbol(old(self)@, symbol@),
    {
        let symbol = Symbol::new(name, SymbolScope::Function, 0);
        self.table.insert(symbol.duplicate());
        symbol
    }

    /// Returns the symbol that `name` stands for in this scope, searching the
    /// enclosing scopes where this one does not bind it, and capturing what
    /// is found in an enclosing function.
    pub fn resolve(&mut self, name: &str) -> (r: Option<Symbol>)
        requires
            old(self).wf(),
        ensures
            final(self).wf(),
            (
                final(self)@,
                match r {
                    Some(s) => Some(s@),
                    None => None,
                },
            ) == resolve_symbol(old(self)@, name@),
        decreases *old(self),
    {
        match self.table.get(name) {
            Some(symbol) => {
                return Some(symbol);
            },
            None => {},
        }
        let found = match &mut self.outer {
            None => {
                return None;
            },
            Some(outer) => outer.resolve(name),
        };
        match found {
            None => None,
            Some(symbol) => {
                match symbol.scope {
                    SymbolScope::Global | SymbolScope::Builtin => Some(symbol),
                    _ => Some(self.define_free(symbol)),
                }
            },
        }
    }

    /// Captures a symbol of an enclosing function: appends it to the free
    /// symbols and binds its name to a FREE symbol.
    pub fn define_free(&mut self, found: Symbol) -> (symbol: Symbol)
        requires
            old(self).wf(),
        ensures
            final(self).wf(),
            (final(self)@, symbol@) == capture_symbol(old(self)@, found@),
    {
        let symbol = Symbol::new(found.name.as_str(), SymbolScope::Free, self.free_symbols.len());
        self.free_symbols.push(found);
        self.table.insert(symbol.duplicate());
        assert(final(self)@.free_symbols =~= old(self)@.free_symbols.push(found@));
        symbol
    }
}


/// Whether `name` is the name of a builtin function.
pub open spec fn is_builtin_name(name: Seq<char>) -> bool {
    exists|index: int| 1 <= index <= BUILTIN_COUNT && name == #[trigger] builtin_name_of(index)
}

/// The bindings of a new scope are those of the builtin functions.
pub proof fn lemma_builtin_store_keys(count: int, name: Seq<char>)
    requires
        0 <= count <= BUILTIN_COUNT,
        !is_builtin_name(name),
    ensures
        !builtin_store(count).contains_key(name),
    decreases count,
{
    if count > 0 {
        lemma_builtin_store_keys(count - 1, name);
        assert(name != builtin_name_of(count));
    }
}

/// Resolution through nested scopes. Take a global scope that defines `a`,
/// a scope enclosed by it that defines `c`, and a third scope enclosed by the
/// second, where `a` and `c` are different names and neither is the name of
/// a builtin function. Resolving `a` in the third scope gives the GLOBAL
/// symbol with index 0. Resolving `c` there gives a FREE symbol with index
/// 0, and afterwards the free symbols of the third scope are exactly the
/// LOCAL symbol that the second scope bound `c` to.
pub proof fn lemma_resolve_through_scopes(a: Seq<char>, c: Seq<char>)
    requires
        a != c,
        !is_builtin_name(a),
        !is_builtin_name(c),
    ensures
        ({
            let global = define_symbol(new_table(), a).0;
            let first = define_symbol(enclosed_table(global), c).0;
            let second = enclosed_table(first);
            let (after_a, found_a) = resolve_symbol(second, a);
            let (after_c, found_c) = resolve_symbol(after_a, c);
            &&& found_a == Some(SymbolView { name: a, scope: SymbolScope::Global, index: 0 })
            &&& found_c == Some(SymbolView { name: c, scope: SymbolScope::Free, index: 0 })
            &&& after_c.free_symbols == seq![
                SymbolView { name: c, scope: SymbolScope::Local, index: 0 },
            ]
        }),
{
    lemma_builtin_store_keys(BUILTIN_COUNT as int, a);
    lemma_builtin_store_keys(BUILTIN_COUNT as int, c);
    let global = define_symbol(new_table(), a).0;
    let first = define_symbol(enclosed_table(global), c).0;
    let second = enclosed_table(first);
    reveal_with_fuel(resolve_symbol, 4);
    assert(!second.store.contains_key(a));
    assert(!first.store.contains_key(a));
    assert(global.store.contains_key(a));
    let (after_a, found_a) = resolve_symbol(second, a);
    assert(found_a == Some(SymbolView { name: a, scope: SymbolScope::Global, index: 0 }));
    assert(after_a.store == second.store);
    assert(!after_a.store.contains_key(c));
    assert(after_a.outer == Some(Box::new(first)));
    assert(first.store.contains_key(c));
    let (after_c, found_c) = resolve_symbol(after_a, c);
    assert(after_c.free_symbols =~= seq![
        SymbolView { name: c, scope: SymbolScope::Local, index: 0 },
    ]);
}

} // verus!
