//! The string table and the symbol table.
use vstd::prelude::*;

use std::collections::HashMap;

use crate::types::{Type, TypeM, clone_type};
use crate::text::{decimal, push_decimal, push_str};

verus! {

/// Builds a `String` from its characters (`String::from_iter`).
#[verifier::external_body]
pub(crate) fn string_from_chars(v: &Vec<char>) -> (r: String)
    ensures
        r@ == v@,
{
    String::from_iter(v.iter())
}

/// The string table: identifiers and string literals, each stored once and
/// known by its index.
pub struct Strings {
    strings: Vec<String>,
}

impl View for Strings {
    type V = Seq<Seq<char>>;

    closed spec fn view(&self) -> Seq<Seq<char>> {
        self.strings@.map_values(|s: String| s@)
    }
}

impl Strings {
    #[verifier::type_invariant]
    closed spec fn inv(self) -> bool {
        self@.no_duplicates()
    }

    pub fn new() -> (r: Self)
        ensures
            r@ == Seq::<Seq<char>>::empty(),
    {
        let r = Strings { strings: vec![] };
        assert(r@ =~= Seq::<Seq<char>>::empty());
        r
    }

    /// The index of `st`, which is added at the end if it is not there yet.
    pub fn add(&mut self, st: String) -> (r: usize)
        ensures
            (r, final(self)@) == crate::scan::intern(old(self)@, st@),
    {
        proof {
            use_type_invariant(&*self);
        }
        let mut i: usize = 0;
        while i < self.strings.len()
            invariant
                i <= self.strings@.len(),
                self@ == old(self)@,
                self@.no_duplicates(),
                forall|j: int| 0 <= j < i ==> self@[j] != st@,
            decreases self.strings.len() - i,
        {
            if self.strings[i] == st {
                assert(self@[i as int] == st@);
                assert(self@.contains(st@));
                assert(self@.index_of(st@) == i as int);
                return i;
            }
            i += 1;
        }
        let id = self.strings.len();
        proof {
            assert(!self@.contains(st@));
            let ghost new_view = self@.push(st@);
            assert(new_view.no_duplicates()) by {
                assert forall|a: int, b: int|
                    0 <= a < new_view.len() && 0 <= b < new_view.len() && a != b implies new_view[a]
                    != new_view[b] by {
                    if a < self@.len() && b < self@.len() {
                    } else if a == self@.len() {
                        assert(new_view[b] == self@[b]);
                    } else {
                        assert(new_view[a] == self@[a]);
                    }
                }
            }
        }
        let mut v: Vec<String> = Vec::new();
        std::mem::swap(&mut v, &mut self.strings);
        let ghost old_strings = v@;
        v.push(st);
        assert(v@.map_values(|s: String| s@) =~= old(self)@.push(st@)) by {
            assert(v@ == old_strings.push(st));
        }
        self.strings = v;
        id
    }

    /// The string with index `id`, if there is one.
    pub fn get(&self, id: usize) -> (r: Option<&String>)
        ensures
            r is Some <==> id < self@.len(),
            r matches Some(s) ==> s@ == self@[id as int],
    {
        if id < self.strings.len() {
            Some(&self.strings[id])
        } else {
            None
        }
    }

    /// How many strings the table holds.
    pub fn len(&self) -> (r: usize)
        ensures
            r == self@.len(),
    {
        self.strings.len()
    }

    pub fn is_empty(&self) -> (r: bool)
        ensures
            r == (self@.len() == 0),
    {
        self.strings.len() == 0
    }
}


// ---------------------------------------------------------------------------
// Symbols
// ---------------------------------------------------------------------------

/// What a name stands for.
#[derive(Debug, Clone, Copy, PartialEq, Eq, Structural)]
pub enum SymbolKind {
    /// A local variable and its position among the locals of its block.
    Local(usize),
    Global,
    /// A parameter and its position in the signature.
    Param(usize),
    /// A function declared ahead of its definition.
    Forward,
    Function,
}

/// A declared name: its index in the string table, what it is, its type.
#[derive(Debug)]
pub struct Symbol {
    pub name: usize,
    pub kind: SymbolKind,
    pub dtype: Type,
}

/// Model of a [`Symbol`].
pub struct SymbolM {
    pub name: usize,
    pub kind: SymbolKind,
    pub dtype: TypeM,
}

impl Symbol {
    pub open spec fn model(self) -> SymbolM {
        SymbolM { name: self.name, kind: self.kind, dtype: self.dtype.model() }
    }

    pub fn create(name: usize, kind: SymbolKind, dtype: Type) -> (r: Self)
        ensures
            r.name == name,
            r.kind == kind,
            r.dtype.model() == dtype.model(),
    {
        Symbol { name, kind, dtype }
    }
}

impl Clone for Symbol {
    fn clone(&self) -> (r: Self)
        ensures
            r.model() == self.model(),
    {
        Symbol { name: self.name, kind: self.kind, dtype: clone_type(&self.dtype) }
    }
}

/// The position of a symbol in the symbol table.
#[derive(Debug, Clone, Copy, PartialEq, Eq, Structural)]
pub struct SymbolId(pub usize);

/// The names bound in one scope.
#[derive(Debug)]
pub struct Scope {
    bindings: HashMap<usize, SymbolId>,
}

impl View for Scope {
    type V = Map<usize, SymbolId>;

    closed spec fn view(&self) -> Map<usize, SymbolId> {
        self.bindings@
    }
}

impl Default for Scope {
    fn default() -> (r: Self)
        ensures
            r@ == Map::<usize, SymbolId>::empty(),
    {
        Scope { bindings: HashMap::new() }
    }
}

impl Scope {
    /// Binds `string_id` to `sym_id`, replacing any earlier binding.
    pub fn add(&mut self, string_id: usize, sym_id: SymbolId)
        ensures
            final(self)@ == old(self)@.insert(string_id, sym_id),
    {
        broadcast use vstd::std_specs::hash::group_hash_axioms;

        self.bindings.insert(string_id, sym_id);
    }

    pub fn contains(&self, string_id: usize) -> (r: bool)
        ensures
            r == self@.contains_key(string_id),
    {
        broadcast use vstd::std_specs::hash::group_hash_axioms;

        self.bindings.contains_key(&string_id)
    }

    pub fn get(&self, string_id: usize) -> (r: Option<&SymbolId>)
        ensures
            match r {
                Some(s) => self@.contains_key(string_id) && self@[string_id] == *s,
                None => !self@.contains_key(string_id),
            },
    {
        broadcast use vstd::std_specs::hash::group_hash_axioms;

        self.bindings.get(&string_id)
    }
}

// ---------------------------------------------------------------------------
// The symbol table
// ---------------------------------------------------------------------------

/// The innermost binding of `id` in `scopes` (the last scope is the
/// innermost).
pub open spec fn find_binding(scopes: Seq<Map<usize, SymbolId>>, id: usize) -> Option<SymbolId>
    decreases scopes.len(),
{
    if scopes.len() == 0 {
        None
    } else if scopes.last().contains_key(id) {
        Some(scopes.last()[id])
    } else {
        find_binding(scopes.drop_last(), id)
    }
}

/// The binding of `id` in the innermost scope only.
pub open spec fn find_current(scopes: Seq<Map<usize, SymbolId>>, id: usize) -> Option<SymbolId> {
    if scopes.len() > 0 && scopes.last().contains_key(id) {
        Some(scopes.last()[id])
    } else {
        None
    }
}

/// The symbol a binding points to, if it points into the table.
pub open spec fn symbol_at(syms: Seq<SymbolM>, sid: Option<SymbolId>) -> Option<SymbolM> {
    match sid {
        Some(s) => if s.0 < syms.len() {
            Some(syms[s.0 as int])
        } else {
            None
        },
        None => None,
    }
}

/// Every binding in `scopes` points at one of the first `n` symbols.
pub open spec fn ids_below(scopes: Seq<Map<usize, SymbolId>>, n: nat) -> bool {
    forall|i: int, k: usize|
        0 <= i < scopes.len() && #[trigger] scopes[i].contains_key(k) ==> scopes[i][k].0 < n
}

/// Where every binding points into the table, the innermost binding of a
/// name does too.
pub proof fn lemma_find_binding_below(scopes: Seq<Map<usize, SymbolId>>, n: nat, id: usize)
    requires
        ids_below(scopes, n),
    ensures
        find_binding(scopes, id) matches Some(s) ==> s.0 < n,
        find_current(scopes, id) matches Some(s) ==> s.0 < n,
    decreases scopes.len(),
{
    if scopes.len() > 0 {
        let last = scopes.len() - 1;
        if scopes[last].contains_key(id) {
        } else {
            let inner = scopes.drop_last();
            assert forall|i: int, k: usize|
                0 <= i < inner.len() && #[trigger] inner[i].contains_key(k) implies inner[i][k].0 < n by {
                assert(inner[i] == scopes[i]);
            }
            lemma_find_binding_below(inner, n, id);
        }
    }
}

/// Whether a symbol of kind `kind` may be bound where `current` is the
/// symbol already bound to its name in the innermost scope: only a forward
/// declaration may be followed by the function's definition.
pub open spec fn may_bind(current: Option<SymbolM>, kind: SymbolKind) -> bool {
    match current {
        None => true,
        Some(c) => c.kind == SymbolKind::Forward && kind == SymbolKind::Function,
    }
}

/// Why a name could not be bound.
#[derive(Debug, Clone, Copy, PartialEq, Eq, Structural)]
pub enum BindError {
    /// The name (an index in the string table) is bound in this scope
    /// already.
    AlreadyDefined(usize),
}

/// The text of a [`BindError`].
pub open spec fn bind_error_text(e: BindError) -> Seq<char> {
    match e {
        BindError::AlreadyDefined(id) => "Already defined symbol with string "@ + decimal(id as nat),
    }
}

impl BindError {
    /// The error as a message.
    pub fn to_string(&self) -> (r: String)
        ensures
            r@ == bind_error_text(*self),
    {
        let mut chars: Vec<char> = Vec::new();
        push_str("Already defined symbol with string ", &mut chars);
        match self {
            BindError::AlreadyDefined(id) => push_decimal(*id as u64, &mut chars),
        }
        string_from_chars(&chars)
    }
}

/// The symbol table: every symbol bound so far, and a stack of scopes that
/// map names to symbols.  The global scope is always there.
#[derive(Debug)]
pub struct SymbolTable {
    symbols: Vec<Symbol>,
    scopes: Vec<Scope>,
}

impl SymbolTable {
    #[verifier::type_invariant]
    closed spec fn inv(self) -> bool {
        &&& self.scopes@.len() >= 1
        &&& ids_below(self.scopes(), self.symbols@.len())
    }

    /// The symbols, in the order they were bound.
    pub closed spec fn syms(&self) -> Seq<SymbolM> {
        self.symbols@.map_values(|s: Symbol| s.model())
    }

    /// The scopes, outermost first.
    pub closed spec fn scopes(&self) -> Seq<Map<usize, SymbolId>> {
        self.scopes@.map_values(|s: Scope| s@)
    }

    /// How many scopes are open, the global one included.
    pub fn levels(&self) -> (r: usize)
        ensures
            r == self.scopes().len(),
            r >= 1,
    {
        proof {
            use_type_invariant(self);
        }
        self.scopes.len()
    }

    /// Whether only the global scope is open.
    pub fn at_global(&self) -> (r: bool)
        ensures
            r == (self.scopes().len() == 1),
    {
        self.levels() == 1
    }

    /// Opens a new, empty, innermost scope.
    pub fn enter_scope(&mut self)
        ensures
            final(self).syms() == old(self).syms(),
            final(self).scopes() == old(self).scopes().push(Map::empty()),
    {
        proof {
            use_type_invariant(&*self);
        }
        let mut scopes: Vec<Scope> = Vec::new();
        scopes.push(Scope::default());
        assert(scopes@.map_values(|s: Scope| s@) =~= seq![Map::<usize, SymbolId>::empty()]);
        std::mem::swap(&mut scopes, &mut self.scopes);
        let ghost old_scopes = scopes@;
        scopes.push(Scope::default());
        assert(scopes@.map_values(|s: Scope| s@) =~= old(self).scopes().push(Map::empty())) by {
            assert(scopes@ == old_scopes.push(scopes@.last()));
        }
        self.scopes = scopes;
    }

    /// Closes the innermost scope; the global scope cannot be closed.
    pub fn leave_scope(&mut self)
        requires
            old(self).scopes().len() > 1,
        ensures
            final(self).syms() == old(self).syms(),
            final(self).scopes() == old(self).scopes().drop_last(),
    {
        proof {
            use_type_invariant(&*self);
        }
        let mut scopes: Vec<Scope> = Vec::new();
        scopes.push(Scope::default());
        assert(scopes@.map_values(|s: Scope| s@) =~= seq![Map::<usize, SymbolId>::empty()]);
        std::mem::swap(&mut scopes, &mut self.scopes);
        let ghost old_scopes = scopes@;
        let _ = scopes.pop();
        assert(scopes@.map_values(|s: Scope| s@) =~= old(self).scopes().drop_last()) by {
            assert(scopes@ == old_scopes.drop_last());
        }
        self.scopes = scopes;
    }

    /// Binds `sym` in the innermost scope.  A name may be bound once per
    /// scope; the one exception is a function defined after its forward
    /// declaration.
    pub fn bind(&mut self, sym: Symbol) -> (r: Result<(), BindError>)
        ensures
            may_bind(
                symbol_at(old(self).syms(), find_current(old(self).scopes(), sym.name)),
                sym.kind,
            ) ==> {
                &&& r is Ok
                &&& old(self).syms().len() < usize::MAX
                &&& final(self).syms() == old(self).syms().push(sym.model())
                &&& final(self).scopes() == old(self).scopes().update(
                    old(self).scopes().len() - 1,
                    old(self).scopes().last().insert(sym.name, SymbolId(old(self).syms().len() as usize)),
                )
                &&& symbol_at(final(self).syms(), find_binding(final(self).scopes(), sym.name)) == Some(
                    sym.model(),
                )
                &&& symbol_at(final(self).syms(), find_current(final(self).scopes(), sym.name)) == Some(
                    sym.model(),
                )
            },
            !may_bind(
                symbol_at(old(self).syms(), find_current(old(self).scopes(), sym.name)),
                sym.kind,
            ) ==> {
                &&& r == Err::<(), BindError>(BindError::AlreadyDefined(sym.name))
                &&& final(self).syms() == old(self).syms()
                &&& final(self).scopes() == old(self).scopes()
            },
    {
        proof {
            use_type_invariant(&*self);
        }
        let sym_id = SymbolId(self.symbols.len());
        let string_id = sym.name;
        match self.lookup_current(string_id) {
            Some(current) => {
                match (current.kind, sym.kind) {
                    (SymbolKind::Forward, SymbolKind::Function) => {},
                    _ => {
                        return Err(BindError::AlreadyDefined(string_id));
                    },
                }
            },
            None => {},
        }
        let ghost old_syms = self.symbols@;
        let mut scopes: Vec<Scope> = Vec::new();
        scopes.push(Scope::default());
        assert(scopes@.map_values(|s: Scope| s@) =~= seq![Map::<usize, SymbolId>::empty()]);
        std::mem::swap(&mut scopes, &mut self.scopes);
        let mut symbols: Vec<Symbol> = Vec::new();
        std::mem::swap(&mut symbols, &mut self.symbols);
        symbols.push(sym);
        let n_syms = symbols.len();
        assert(old_syms.len() < n_syms);
        assert(symbols@.map_values(|s: Symbol| s.model()) =~= old(self).syms().push(sym.model())) by {
            assert(symbols@ == old_syms.push(sym));
        }
        self.symbols = symbols;
        let last = scopes.len() - 1;
        let ghost old_scopes = scopes@;
        let mut scope = scopes.remove(last);
        scope.add(string_id, sym_id);
        scopes.push(scope);
        assert(scopes@.map_values(|s: Scope| s@) =~= old(self).scopes().update(
            last as int,
            old(self).scopes().last().insert(string_id, sym_id),
        )) by {
            assert(scopes@ =~= old_scopes.update(last as int, scope));
        }
        self.scopes = scopes;
        proof {
            lemma_bind_then_lookup(old(self).syms(), old(self).scopes(), sym.model());
        }
        Ok(())
    }

    /// The symbol bound to `id` in the innermost scope that binds it.
    pub fn lookup(&self, id: usize) -> (r: Option<&Symbol>)
        ensures
            match symbol_at(self.syms(), find_binding(self.scopes(), id)) {
                Some(s) => r is Some && r->0.model() == s,
                None => r is None,
            },
            r is Some <==> find_binding(self.scopes(), id) is Some,
    {
        proof {
            use_type_invariant(self);
            lemma_find_binding_below(self.scopes(), self.symbols@.len(), id);
        }
        let mut i: usize = self.scopes.len();
        assert(self.scopes().subrange(0, i as int) =~= self.scopes());
        while i > 0
            invariant
                i <= self.scopes@.len(),
                find_binding(self.scopes(), id) == find_binding(self.scopes().subrange(0, i as int), id),
                find_binding(self.scopes(), id) matches Some(s) ==> s.0 < self.symbols@.len(),
            decreases i,
        {
            let ghost sub = self.scopes().subrange(0, i as int);
            assert(sub.last() == self.scopes@[i - 1]@);
            match self.scopes[i - 1].get(id) {
                Some(sid) => {
                    let sid = *sid;
                    if sid.0 < self.symbols.len() {
                        return Some(&self.symbols[sid.0]);
                    } else {
                        return None;
                    }
                },
                None => {},
            }
            assert(sub.drop_last() =~= self.scopes().subrange(0, i - 1));
            i -= 1;
        }
        None
    }

    /// The symbol bound to `id` in the innermost scope, if that scope binds
    /// it.
    pub fn lookup_current(&self, id: usize) -> (r: Option<&Symbol>)
        ensures
            match symbol_at(self.syms(), find_current(self.scopes(), id)) {
                Some(s) => r is Some && r->0.model() == s,
                None => r is None,
            },
            r is Some <==> find_current(self.scopes(), id) is Some,
    {
        proof {
            use_type_invariant(self);
            lemma_find_binding_below(self.scopes(), self.symbols@.len(), id);
        }
        let n = self.scopes.len();
        if n == 0 {
            return None;
        }
        match self.scopes[n - 1].get(id) {
            Some(sid) => {
                let sid = *sid;
                if sid.0 < self.symbols.len() {
                    Some(&self.symbols[sid.0])
                } else {
                    None
                }
            },
            None => None,
        }
    }
}

impl Default for SymbolTable {
    /// A table with the global scope open and nothing bound.
    fn default() -> (r: Self)
        ensures
            r.syms() == Seq::<SymbolM>::empty(),
            r.scopes() == seq![Map::<usize, SymbolId>::empty()],
    {
        let mut scopes: Vec<Scope> = Vec::new();
        scopes.push(Scope::default());
        assert(scopes@.map_values(|s: Scope| s@) =~= seq![Map::<usize, SymbolId>::empty()]);
        let r = SymbolTable { symbols: Vec::new(), scopes };
        assert(r.syms() =~= Seq::<SymbolM>::empty());
        assert(r.scopes() =~= seq![Map::<usize, SymbolId>::empty()]);
        r
    }
}


// ---------------------------------------------------------------------------
// Laws
// ---------------------------------------------------------------------------

/// Interning: the index handed out for a string holds that string, asking
/// again for the same string gives the same index and leaves the table as
/// it is, and the strings already in the table keep their indices.
pub proof fn lemma_intern_stable(strs: Seq<Seq<char>>, t: Seq<char>)
    requires
        strs.len() < usize::MAX,
    ensures
        ({
            let (id, strs2) = crate::scan::intern(strs, t);
            &&& 0 <= id < strs2.len()
            &&& strs2[id as int] == t
            &&& crate::scan::intern(strs2, t) == (id, strs2)
            &&& strs2.subrange(0, strs.len() as int) == strs
        }),
{
    let (id, strs2) = crate::scan::intern(strs, t);
    if strs.contains(t) {
        strs.index_of_first_ensures(t);
        assert(strs2.subrange(0, strs.len() as int) =~= strs);
    } else {
        assert(strs2[strs.len() as int] == t);
        assert(strs2.contains(t));
        assert(strs2.index_of(t) == strs.len()) by {
            let k = strs2.index_of(t);
            strs2.index_of_first_ensures(t);
            if k < strs.len() {
                assert(strs[k] == t);
            }
        }
        assert(strs2.subrange(0, strs.len() as int) =~= strs);
    }
}

/// After a symbol is bound, looking its name up, in the innermost scope or
/// outward from it, finds that symbol.
pub proof fn lemma_bind_then_lookup(syms: Seq<SymbolM>, scopes: Seq<Map<usize, SymbolId>>, sym: SymbolM)
    requires
        scopes.len() >= 1,
        syms.len() < usize::MAX,
        may_bind(symbol_at(syms, find_current(scopes, sym.name)), sym.kind),
    ensures
        ({
            let syms2 = syms.push(sym);
            let scopes2 = scopes.update(
                scopes.len() - 1,
                scopes.last().insert(sym.name, SymbolId(syms.len() as usize)),
            );
            &&& symbol_at(syms2, find_binding(scopes2, sym.name)) == Some(sym)
            &&& symbol_at(syms2, find_current(scopes2, sym.name)) == Some(sym)
        }),
{
    let scopes2 = scopes.update(
        scopes.len() - 1,
        scopes.last().insert(sym.name, SymbolId(syms.len() as usize)),
    );
    assert(scopes2.last().contains_key(sym.name));
}

/// Binding a symbol leaves every other name as it was: looking up a
/// different name, innermost scope or outward, finds the same symbol (or
/// nothing) before and after.
pub proof fn lemma_bind_keeps_other_names(
    syms: Seq<SymbolM>,
    scopes: Seq<Map<usize, SymbolId>>,
    sym: SymbolM,
    name: usize,
)
    requires
        scopes.len() >= 1,
        ids_below(scopes, syms.len()),
        name != sym.name,
    ensures
        ({
            let syms2 = syms.push(sym);
            let scopes2 = scopes.update(
                scopes.len() - 1,
                scopes.last().insert(sym.name, SymbolId(syms.len() as usize)),
            );
            &&& symbol_at(syms2, find_binding(scopes2, name)) == symbol_at(syms, find_binding(scopes, name))
            &&& symbol_at(syms2, find_current(scopes2, name)) == symbol_at(syms, find_current(scopes, name))
        }),
{
    let scopes2 = scopes.update(
        scopes.len() - 1,
        scopes.last().insert(sym.name, SymbolId(syms.len() as usize)),
    );
    assert(scopes2.drop_last() =~= scopes.drop_last());
    assert(scopes2.last().contains_key(name) == scopes.last().contains_key(name));
    lemma_find_binding_below(scopes, syms.len(), name);
}

/// Names bound in the enclosing scopes stay visible in a new scope, which
/// binds nothing of its own yet.
pub proof fn lemma_enter_keeps_lookup(scopes: Seq<Map<usize, SymbolId>>, id: usize)
    ensures
        find_binding(scopes.push(Map::empty()), id) == find_binding(scopes, id),
        find_current(scopes.push(Map::empty()), id) is None,
{
    assert(scopes.push(Map::empty()).drop_last() =~= scopes);
}

/// Leaving a scope forgets what was bound in it: the table's scopes are
/// those from before the scope was entered, whatever was bound inside.
pub proof fn lemma_leave_restores(scopes: Seq<Map<usize, SymbolId>>, inner: Map<usize, SymbolId>, id: usize)
    ensures
        scopes.push(inner).drop_last() == scopes,
        find_binding(scopes.push(inner).drop_last(), id) == find_binding(scopes, id),
{
    assert(scopes.push(inner).drop_last() =~= scopes);
}

/// A name bound in an enclosing scope is not bound in the innermost one, so
/// it may be bound again there, shadowing the outer symbol.
pub proof fn lemma_shadowing(
    syms: Seq<SymbolM>,
    scopes: Seq<Map<usize, SymbolId>>,
    sym: SymbolM,
)
    requires
        syms.len() < usize::MAX,
    ensures
        may_bind(symbol_at(syms, find_current(scopes.push(Map::empty()), sym.name)), sym.kind),
        ({
            let inner = scopes.push(Map::empty());
            let syms2 = syms.push(sym);
            let scopes2 = inner.update(
                inner.len() - 1,
                inner.last().insert(sym.name, SymbolId(syms.len() as usize)),
            );
            symbol_at(syms2, find_binding(scopes2, sym.name)) == Some(sym)
        }),
{
    lemma_enter_keeps_lookup(scopes, sym.name);
    lemma_bind_then_lookup(syms, scopes.push(Map::empty()), sym);
}

/// Once a symbol is bound, its name can be bound again in the same scope
/// only as the definition of a function whose forward declaration it was.
pub proof fn lemma_redefinition(
    syms: Seq<SymbolM>,
    scopes: Seq<Map<usize, SymbolId>>,
    sym: SymbolM,
    kind: SymbolKind,
)
    requires
        scopes.len() >= 1,
        syms.len() < usize::MAX,
        may_bind(symbol_at(syms, find_current(scopes, sym.name)), sym.kind),
    ensures
        ({
            let syms2 = syms.push(sym);
            let scopes2 = scopes.update(
                scopes.len() - 1,
                scopes.last().insert(sym.name, SymbolId(syms.len() as usize)),
            );
            may_bind(symbol_at(syms2, find_current(scopes2, sym.name)), kind) == (sym.kind
                == SymbolKind::Forward && kind == SymbolKind::Function)
        }),
{
    lemma_bind_then_lookup(syms, scopes, sym);
}

} // verus!
