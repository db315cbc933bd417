//! The symbol table: each bound name with what it is bound to.
use crate::command::{share, Command, CommandView};
use crate::types::{Expr, ExprView};
use std::rc::Rc;
use vstd::prelude::*;

verus! {

/// What a symbol is bound to.
pub enum Referent {
    Command(Rc<Command>),
    Expr(Expr),
}

/// What a symbol is bound to, as a value.
pub enum ReferentView {
    Command(CommandView),
    Expr(ExprView),
}

impl View for Referent {
    type V = ReferentView;

    open spec fn view(&self) -> ReferentView {
        match self {
            Referent::Command(c) => ReferentView::Command(c@),
            Referent::Expr(e) => ReferentView::Expr(e@),
        }
    }
}

impl Clone for Referent {
    fn clone(&self) -> (r: Referent)
        ensures
            r@ == self@,
    {
        match self {
            Referent::Command(c) => Referent::Command(share(c)),
            Referent::Expr(e) => Referent::Expr(e.duplicate()),
        }
    }
}

/// The bindings of a table as values, in the order in which the names were
/// first bound.
pub type Bindings = Seq<(Seq<char>, ReferentView)>;

/// No name is bound twice.
pub open spec fn distinct_names(b: Bindings) -> bool {
    forall|i: int, j: int| 0 <= i < j < b.len() ==> (#[trigger] b[i]).0 != (#[trigger] b[j]).0
}

/// Whether a name is bound.
pub open spec fn is_bound(b: Bindings, name: Seq<char>) -> bool {
    exists|k: int| 0 <= k < b.len() && (#[trigger] b[k]).0 == name
}

/// The place of a bound name.
pub open spec fn place_of(b: Bindings, name: Seq<char>) -> int {
    choose|k: int| 0 <= k < b.len() && (#[trigger] b[k]).0 == name
}

/// The names that are bound.
pub open spec fn names(b: Bindings) -> Set<Seq<char>> {
    Set::new(|name: Seq<char>| is_bound(b, name))
}

/// The map from each bound name to what it is bound to.
pub open spec fn table_map(b: Bindings) -> Map<Seq<char>, ReferentView> {
    Map::new(|name: Seq<char>| is_bound(b, name), |name: Seq<char>| b[place_of(b, name)].1)
}

/// As many names are bound as there are bindings.
pub proof fn lemma_names_len(b: Bindings)
    requires
        distinct_names(b),
    ensures
        names(b).finite(),
        names(b).len() == b.len(),
    decreases b.len(),
{
    if b.len() == 0 {
        assert(names(b) =~= Set::empty());
    } else {
        let p = b.drop_last();
        lemma_names_len(p);
        assert forall|name: Seq<char>| names(b).contains(name) <==> names(p).insert(
            b.last().0,
        ).contains(name) by {
            if is_bound(b, name) {
                let k = place_of(b, name);
                if k < p.len() {
                    assert(p[k].0 == name);
                }
            }
            if is_bound(p, name) {
                let k = place_of(p, name);
                assert(b[k].0 == name);
            }
            if name == b.last().0 {
                assert(b[b.len() - 1].0 == name);
            }
        }
        assert(names(b) =~= names(p).insert(b.last().0));
        if is_bound(p, b.last().0) {
            let k = place_of(p, b.last().0);
            assert(b[k].0 == b[b.len() - 1].0);
        }
    }
}

/// Binding a new name, or binding a bound name anew, is insertion into the
/// map.
pub proof fn lemma_bind(b: Bindings, after: Bindings, name: Seq<char>, referent: ReferentView)
    requires
        distinct_names(b),
        ({
            ||| (!is_bound(b, name) && after == b.push((name, referent)))
            ||| exists|k: int|
                0 <= k < b.len() && (#[trigger] b[k]).0 == name && after == b.update(
                    k,
                    (name, referent),
                )
        }),
    ensures
        distinct_names(after),
        table_map(after) == table_map(b).insert(name, referent),
{
    assert(b.len() <= after.len());
    assert forall|i: int| 0 <= i < b.len() implies (#[trigger] after[i]).0 == b[i].0 by {}
    assert forall|i: int, j: int| 0 <= i < j < after.len() implies (#[trigger] after[i]).0 != (
    #[trigger] after[j]).0 by {
        if j >= b.len() {
            assert(b[i].0 != name);
        }
    }
    assert forall|n: Seq<char>| is_bound(after, n) <==> (n == name || is_bound(b, n)) by {
        if is_bound(after, n) {
            let k = place_of(after, n);
            if k < b.len() {
                assert(b[k].0 == n);
            }
        }
        if is_bound(b, n) {
            let k = place_of(b, n);
            assert(after[k].0 == n);
        }
        if n == name {
            if is_bound(b, name) {
                let k = place_of(b, name);
                assert(after[k].0 == n);
            } else {
                assert(after[b.len() as int].0 == n);
            }
        }
    }
    assert forall|n: Seq<char>| is_bound(after, n) implies #[trigger] table_map(after)[n]
        == table_map(b).insert(name, referent)[n] by {
        let k = place_of(after, n);
        if n == name {
            if is_bound(b, name) {
                let p = place_of(b, name);
                assert(after[p].0 == name);
            } else {
                assert(after[b.len() as int].0 == n);
                if k < b.len() {
                    assert(b[k].0 == n);
                }
            }
        } else {
            assert(k < b.len());
            assert(b[k].0 == n);
            let p = place_of(b, n);
            assert(after[p].0 == n);
        }
    }
    assert(table_map(after) =~= table_map(b).insert(name, referent));
}

/// The symbol table: each name with what it is bound to.
pub struct SymbolTable {
    entries: Vec<(String, Referent)>,
}

/// The bindings that the entries of a table hold.
pub closed spec fn bindings_of(entries: Seq<(String, Referent)>) -> Bindings {
    Seq::new(entries.len(), |i: int| (entries[i].0@, entries[i].1@))
}

impl View for SymbolTable {
    type V = Map<Seq<char>, ReferentView>;

    closed spec fn view(&self) -> Map<Seq<char>, ReferentView> {
        table_map(bindings_of(self.entries@))
    }
}

impl SymbolTable {
    #[verifier::type_invariant]
    spec fn inv(&self) -> bool {
        distinct_names(bindings_of(self.entries@))
    }

    /// The table in which no name is bound.
    pub fn new() -> (t: SymbolTable)
        ensures
            t@ == Map::<Seq<char>, ReferentView>::empty(),
    {
        let t = SymbolTable { entries: Vec::new() };
        assert(t@ =~= Map::<Seq<char>, ReferentView>::empty());
        t
    }

    /// The place of the entry for a name, if the name is bound.
    fn find(&self, name: &String) -> (r: Option<usize>)
        ensures
            match r {
                Some(k) => k < self.entries@.len() && self.entries@[k as int].0@ == name@,
                None => !is_bound(bindings_of(self.entries@), name@),
            },
    {
        let mut i: usize = 0;
        while i < self.entries.len()
            invariant
                i <= self.entries.len(),
                forall|j: int| 0 <= j < i ==> self.entries@[j].0@ != name@,
            decreases self.entries.len() - i,
        {
            if self.entries[i].0 == *name {
                return Some(i);
            }
            i += 1;
        }
        proof {
            let b = bindings_of(self.entries@);
            if is_bound(b, name@) {
                let k = place_of(b, name@);
                assert(b[k].0 == self.entries@[k].0@);
            }
        }
        None
    }

    /// What the name is bound to, if it is bound.
    pub fn get(&self, name: &str) -> (r: Option<&Referent>)
        ensures
            match r {
                Some(referent) => self@.dom().contains(name@) && referent@ == self@[name@],
                None => !self@.dom().contains(name@),
            },
    {
        proof {
            use_type_invariant(self);
        }
        let key = String::from_str(name);
        match self.find(&key) {
            Some(k) => {
                proof {
                    let b = bindings_of(self.entries@);
                    assert(b[k as int].0 == name@);
                    let p = place_of(b, name@);
                    assert(p == k);
                }
                Some(&self.entries[k].1)
            },
            None => None,
        }
    }

    /// Binds the name, in place of what it was bound to before.
    pub fn insert(&mut self, name: String, referent: Referent)
        ensures
            final(self)@ == old(self)@.insert(name@, referent@),
    {
        proof {
            use_type_invariant(&*self);
        }
        let ghost b = bindings_of(self.entries@);
        let ghost n = name@;
        let ghost r = referent@;
        let found = self.find(&name);
        let mut entries: Vec<(String, Referent)> = Vec::new();
        assert(distinct_names(bindings_of(entries@)));
        std::mem::swap(&mut entries, &mut self.entries);
        match found {
            Some(k) => {
                entries.set(k, (name, referent));
                proof {
                    let after = bindings_of(entries@);
                    assert(b[k as int].0 == n);
                    assert(after =~= b.update(k as int, (n, r)));
                    lemma_bind(b, after, n, r);
                }
            },
            None => {
                entries.push((name, referent));
                proof {
                    let after = bindings_of(entries@);
                    assert(after =~= b.push((n, r)));
                    lemma_bind(b, after, n, r);
                }
            },
        }
        self.entries = entries;
    }

    /// The number of names that are bound.
    pub fn len(&self) -> (n: usize)
        ensures
            self@.dom().finite(),
            n == self@.dom().len(),
    {
        proof {
            use_type_invariant(self);
            lemma_names_len(bindings_of(self.entries@));
            assert(self@.dom() =~= names(bindings_of(self.entries@)));
        }
        self.entries.len()
    }

    /// Whether no name is bound.
    pub fn is_empty(&self) -> (r: bool)
        ensures
            r == (self@ == Map::<Seq<char>, ReferentView>::empty()),
    {
        proof {
            use_type_invariant(self);
            let b = bindings_of(self.entries@);
            if b.len() == 0 {
                assert(self@ =~= Map::<Seq<char>, ReferentView>::empty());
            } else {
                assert(is_bound(b, b[0].0));
                assert(self@.dom().contains(b[0].0));
            }
        }
        self.entries.len() == 0
    }
}

impl Clone for SymbolTable {
    fn clone(&self) -> (t: SymbolTable)
        ensures
            t@ == self@,
    {
        proof {
            use_type_invariant(self);
        }
        let mut entries: Vec<(String, Referent)> = Vec::new();
        let mut i: usize = 0;
        while i < self.entries.len()
            invariant
                i <= self.entries.len(),
                entries@.len() == i,
                forall|j: int|
                    0 <= j < i ==> entries@[j].0@ == self.entries@[j].0@ && entries@[j].1@
                        == self.entries@[j].1@,
            decreases self.entries.len() - i,
        {
            let name = self.entries[i].0.clone();
            let referent = self.entries[i].1.clone();
            entries.push((name, referent));
            i += 1;
        }
        assert(bindings_of(entries@) =~= bindings_of(self.entries@));
        SymbolTable { entries }
    }
}

} // verus!
