//! The global symbol table: maps source identifiers to slot indices in the
//! virtual machine's globals frame.

use vstd::prelude::*;

verus! {

/// The lexical scope a symbol lives in.  The core language has a single
/// global scope.
#[derive(Debug, PartialEq, Eq, Clone, Copy, Structural)]
pub enum Scope {
    GlobalScope,
}

/// A name bound to a slot index within a scope.
#[derive(Debug)]
pub struct Symbol {
    pub name: String,
    pub scope: Scope,
    pub index: usize,
}

impl Clone for Symbol {
    fn clone(&self) -> (r: Symbol)
        ensures
            r == *self,
    {
        Symbol { name: self.name.clone(), scope: self.scope, index: self.index }
    }
}

impl PartialEq for Symbol {
    fn eq(&self, o: &Symbol) -> (r: bool) {
        self.name == o.name && self.scope == o.scope && self.index == o.index
    }
}

impl vstd::std_specs::cmp::PartialEqSpecImpl for Symbol {
    open spec fn obeys_eq_spec() -> bool {
        true
    }

    open spec fn eq_spec(&self, o: &Symbol) -> bool {
        self.name@ == o.name@ && self.scope == o.scope && self.index == o.index
    }
}

impl Symbol {
    pub fn new(name: String, scope: Scope, index: usize) -> (s: Symbol)
        ensures
            s.name == name,
            s.scope == scope,
            s.index == index,
    {
        Symbol { name, scope, index }
    }
}

/// The binding a sequence of entries gives to `name`: the entry carrying
/// that name, or `None` when no entry does.
pub open spec fn spec_resolve(entries: Seq<Symbol>, name: Seq<char>) -> Option<Symbol>
    decreases entries.len(),
{
    if entries.len() == 0 {
        None
    } else if entries.last().name@ == name {
        Some(entries.last())
    } else {
        spec_resolve(entries.drop_last(), name)
    }
}

/// No two entries carry the same name.
pub open spec fn names_unique(entries: Seq<Symbol>) -> bool {
    forall|i: int, j: int|
        0 <= i < j < entries.len() ==> entries[i].name@ != entries[j].name@
}

proof fn lemma_resolve_none(entries: Seq<Symbol>, name: Seq<char>)
    requires
        forall|i: int| 0 <= i < entries.len() ==> entries[i].name@ != name,
    ensures
        spec_resolve(entries, name) is None,
    decreases entries.len(),
{
    if entries.len() > 0 {
        lemma_resolve_none(entries.drop_last(), name);
    }
}

proof fn lemma_resolve_at(entries: Seq<Symbol>, i: int)
    requires
        names_unique(entries),
        0 <= i < entries.len(),
    ensures
        spec_resolve(entries, entries[i].name@) == Some(entries[i]),
    decreases entries.len(),
{
    if i < entries.len() - 1 {
        assert(entries.drop_last()[i] == entries[i]);
        lemma_resolve_at(entries.drop_last(), i);
    }
}

proof fn lemma_resolve_update(entries: Seq<Symbol>, i: int, sym: Symbol, other: Seq<char>)
    requires
        names_unique(entries),
        0 <= i < entries.len(),
        entries[i].name@ == sym.name@,
    ensures
        spec_resolve(entries.update(i, sym), other) == if other == sym.name@ {
            Some(sym)
        } else {
            spec_resolve(entries, other)
        },
    decreases entries.len(),
{
    let upd = entries.update(i, sym);
    if i == entries.len() - 1 {
        assert(upd.drop_last() =~= entries.drop_last());
    } else {
        assert(upd.last() == entries.last());
        assert(upd.drop_last() =~= entries.drop_last().update(i, sym));
        lemma_resolve_update(entries.drop_last(), i, sym, other);
    }
}

/// Maps identifier names to slot indices.  `num_definition` counts the
/// definitions made so far and is the next slot to hand out.
#[derive(Debug)]
pub struct SymbolTable {
    pub store: Vec<Symbol>,
    pub num_definition: usize,
}

impl SymbolTable {
    /// Entries never repeat a name, every entry is global, and an entry's
    /// slot index is below the definition count.
    pub open spec fn wf(self) -> bool {
        &&& names_unique(self.store@)
        &&& forall|i: int|
            0 <= i < self.store@.len() ==> (#[trigger] self.store@[i]).index < self.num_definition
    }

    /// The binding this table gives to `name`.
    pub open spec fn spec_lookup(self, name: Seq<char>) -> Option<Symbol> {
        spec_resolve(self.store@, name)
    }

    pub fn new() -> (t: SymbolTable)
        ensures
            t.wf(),
            t.num_definition == 0,
            t.store@ =~= Seq::<Symbol>::empty(),
    {
        SymbolTable { store: Vec::new(), num_definition: 0 }
    }

    /// The position of the entry carrying `name`, if any.
    fn find_pos(&self, name: &String) -> (r: Option<usize>)
        ensures
            match r {
                Some(i) => i < self.store@.len() && self.store@[i as int].name@ == name@,
                None => forall|i: int|
                    0 <= i < self.store@.len() ==> self.store@[i].name@ != name@,
            },
    {
        let n = self.store.len();
        let mut i: usize = 0;
        while i < n
            invariant
                n == self.store@.len(),
                i <= n,
                forall|j: int| 0 <= j < i ==> self.store@[j].name@ != name@,
            decreases n - i,
        {
            if self.store[i].name == *name {
                return Some(i);
            }
            i = i + 1;
        }
        None
    }

    /// Allocates the next slot for `name` and stores the binding; a
    /// redefinition overwrites the old binding but still consumes a slot.
    pub fn define(&mut self, name: String) -> (sym: Symbol)
        requires
            old(self).wf(),
            old(self).num_definition < usize::MAX,
        ensures
            final(self).wf(),
            sym.name@ == name@,
            sym.scope == Scope::GlobalScope,
            sym.index == old(self).num_definition,
            final(self).num_definition == old(self).num_definition + 1,
            final(self).spec_lookup(name@) == Some(sym),
            forall|other: Seq<char>|
                other != name@ ==> final(self).spec_lookup(other) == old(self).spec_lookup(other),
    {
        let sym = Symbol { name: name.clone(), scope: Scope::GlobalScope, index: self.num_definition };
        let stored = sym.clone();
        match self.find_pos(&name) {
            Some(i) => {
                proof {
                    lemma_resolve_update(self.store@, i as int, stored, name@);
                    assert forall|other: Seq<char>| other != name@ implies spec_resolve(
                        self.store@.update(i as int, stored),
                        other,
                    ) == spec_resolve(self.store@, other) by {
                        lemma_resolve_update(self.store@, i as int, stored, other);
                    }
                }
                self.store.set(i, stored);
            },
            None => {
                proof {
                    let pushed = self.store@.push(stored);
                    assert(pushed.drop_last() =~= self.store@);
                    assert forall|other: Seq<char>| other != name@ implies spec_resolve(
                        pushed,
                        other,
                    ) == spec_resolve(self.store@, other) by {
                        assert(pushed.drop_last() =~= self.store@);
                    }
                }
                self.store.push(stored);
            },
        }
        self.num_definition = self.num_definition + 1;
        sym
    }

    /// Returns the binding stored for `name`, or `None` when the name was
    /// never defined.
    pub fn resolve(&self, name: &String) -> (r: Option<&Symbol>)
        requires
            self.wf(),
        ensures
            match r {
                Some(sym) => self.spec_lookup(name@) == Some(*sym),
                None => self.spec_lookup(name@) is None,
            },
    {
        match self.find_pos(name) {
            Some(i) => {
                proof {
                    lemma_resolve_at(self.store@, i as int);
                }
                Some(&self.store[i])
            },
            None => {
                proof {
                    lemma_resolve_none(self.store@, name@);
                }
                None
            },
        }
    }
}

} // verus!
