//! State kept per symbol.
//!
//! A [`SymbolMap`] finds a symbol's slot through a `DashMap` and keeps the values
//! side by side, in the order in which their symbols first came.
use crate::text::copy_text;
use dashmap::DashMap;
use std::hash::RandomState;
use vstd::prelude::*;

verus! {

/// The concurrent hash map of `dashmap`.
#[verifier::external_type_specification]
#[verifier::external_body]
#[verifier::reject_recursive_types(K)]
#[verifier::reject_recursive_types(V)]
#[verifier::reject_recursive_types(S)]
pub struct ExDashMap<K, V, S>(dashmap::DashMap<K, V, S>);

/// What a `DashMap` from symbols to slots holds.
pub uninterp spec fn slots_of(index: DashMap<String, usize, RandomState>) -> Map<Seq<char>, usize>;

/// `DashMap::new` gives a map that holds nothing.
#[verifier::external_body]
fn new_index() -> (r: DashMap<String, usize, RandomState>)
    ensures
        forall|symbol: Seq<char>| !slots_of(r).contains_key(symbol),
{
    DashMap::new()
}

/// `DashMap::insert` binds the key to the value and leaves other keys alone.
#[verifier::external_body]
fn set_slot(index: &mut DashMap<String, usize, RandomState>, symbol: String, slot: usize)
    ensures
        slots_of(*final(index)) == slots_of(*old(index)).insert(symbol@, slot),
{
    index.insert(symbol, slot);
}

/// `DashMap::get` gives the value that the key is bound to, if it is bound.
#[verifier::external_body]
fn find_slot(index: &DashMap<String, usize, RandomState>, symbol: &str) -> (r: Option<usize>)
    ensures
        r is Some <==> slots_of(*index).contains_key(symbol@),
        r is Some ==> r->0 == slots_of(*index)[symbol@],
{
    index.get(symbol).map(|slot| *slot)
}

/// A value for each of some symbols.
pub struct SymbolMap<T> {
    index: DashMap<String, usize, RandomState>,
    symbols: Vec<String>,
    values: Vec<T>,
}

impl<T> SymbolMap<T> {
    /// The index and the two lists agree.
    pub closed spec fn wf(&self) -> bool {
        &&& self.symbols@.len() == self.values@.len()
        &&& forall|i: int|
            #![trigger self.symbols@[i]]
            0 <= i < self.symbols@.len() ==> slots_of(self.index).contains_key(self.symbols@[i]@)
                && slots_of(self.index)[self.symbols@[i]@] == i
        &&& forall|symbol: Seq<char>| #[trigger]
            slots_of(self.index).contains_key(symbol) ==> slots_of(self.index)[symbol]
                < self.symbols@.len() && self.symbols@[slots_of(self.index)[symbol] as int]@
                == symbol
    }

    /// The symbols, in the order in which they first came.
    pub closed spec fn order(&self) -> Seq<Seq<char>> {
        self.symbols@.map_values(|s: String| s@)
    }

    /// An empty map.
    pub fn new() -> (r: SymbolMap<T>)
        ensures
            r.wf(),
            r@ == Map::<Seq<char>, T>::empty(),
            r.order() == Seq::<Seq<char>>::empty(),
    {
        let r = SymbolMap { index: new_index(), symbols: Vec::new(), values: Vec::new() };
        assert(r@ =~= Map::<Seq<char>, T>::empty());
        assert(r.order() =~= Seq::<Seq<char>>::empty());
        r
    }

    /// Each symbol with a value stands once in the order, and nothing else does.
    pub proof fn law_order_lists_each_symbol_once(&self)
        requires
            self.wf(),
        ensures
            forall|symbol: Seq<char>| self@.contains_key(symbol) <==> self.order().contains(symbol),
            self.order().no_duplicates(),
    {
        assert forall|symbol: Seq<char>| self@.contains_key(symbol) implies self.order().contains(
            symbol,
        ) by {
            let i = slots_of(self.index)[symbol] as int;
            assert(self.symbols@[i]@ == symbol);
            assert(self.order()[i] == symbol);
        }
        assert forall|symbol: Seq<char>| self.order().contains(symbol) implies self@.contains_key(
            symbol,
        ) by {
            let i = self.order().index_of(symbol);
            assert(self.symbols@[i]@ == symbol);
        }
        assert forall|i: int, j: int|
            0 <= i < self.order().len() && 0 <= j < self.order().len() && i
                != j implies self.order()[i] != self.order()[j] by {
            assert(self.symbols@[i]@ == self.order()[i]);
            assert(self.symbols@[j]@ == self.order()[j]);
        }
    }

    /// Whether the symbol has a value.
    pub fn contains(&self, symbol: &str) -> (r: bool)
        ensures
            r == self@.contains_key(symbol@),
    {
        find_slot(&self.index, symbol).is_some()
    }

    /// The symbol's value.
    pub fn get(&self, symbol: &str) -> (r: Option<&T>)
        requires
            self.wf(),
        ensures
            r is Some <==> self@.contains_key(symbol@),
            r is Some ==> *r->0 == self@[symbol@],
    {
        match find_slot(&self.index, symbol) {
            Some(slot) => {
                assert(slots_of(self.index).contains_key(symbol@));
                Some(&self.values[slot])
            },
            None => None,
        }
    }

    /// Gives the symbol a value, in place of the one it may have.
    pub fn insert(&mut self, symbol: &str, value: T)
        requires
            old(self).wf(),
        ensures
            final(self).wf(),
            final(self)@ == old(self)@.insert(symbol@, value),
            final(self).order() == if old(self)@.contains_key(symbol@) {
                old(self).order()
            } else {
                old(self).order().push(symbol@)
            },
    {
        match find_slot(&self.index, symbol) {
            Some(slot) => {
                assert(slots_of(self.index).contains_key(symbol@));
                self.values.set(slot, value);
            },
            None => {
                let slot: usize = self.values.len();
                set_slot(&mut self.index, copy_text(symbol), slot);
                self.symbols.push(copy_text(symbol));
                self.values.push(value);
                assert(self.order() =~= old(self).order().push(symbol@));
                assert forall|i: int| 0 <= i < self.symbols@.len() implies slots_of(
                    self.index,
                ).contains_key(#[trigger] self.symbols@[i]@) && slots_of(
                    self.index,
                )[self.symbols@[i]@] == i by {
                    if i < slot {
                        assert(self.symbols@[i] == old(self).symbols@[i]);
                    }
                }
                assert forall|s: Seq<char>| #[trigger]
                    slots_of(self.index).contains_key(s) implies slots_of(self.index)[s]
                    < self.symbols@.len() && self.symbols@[slots_of(self.index)[s] as int]@ == s by {
                    if s != symbol@ {
                        assert(slots_of(old(self).index).contains_key(s));
                    }
                }
            },
        }
        assert(self@ =~= old(self)@.insert(symbol@, value));
    }

    /// The symbol's value, to be changed in place; `first` where it has none yet.
    pub fn entry(&mut self, symbol: &str, first: T) -> (r: &mut T)
        requires
            old(self).wf(),
        ensures
            final(self).wf(),
            *r == if old(self)@.contains_key(symbol@) { old(self)@[symbol@] } else { first },
            final(self)@ == old(self)@.insert(symbol@, *final(r)),
            final(self).order() == if old(self)@.contains_key(symbol@) {
                old(self).order()
            } else {
                old(self).order().push(symbol@)
            },
    {
        let slot: usize = match find_slot(&self.index, symbol) {
            Some(slot) => slot,
            None => {
                let slot: usize = self.values.len();
                assert(!self@.contains_key(symbol@));
                self.insert(symbol, first);
                assert(self.order().len() == slot + 1);
                assert(self.symbols@[slot as int]@ == self.order()[slot as int]);
                assert(self@.contains_key(symbol@));
                slot
            },
        };
        assert(slots_of(self.index).contains_key(symbol@));
        assert(slots_of(self.index)[symbol@] == slot);
        assert(self@ =~= old(self)@ || self@ =~= old(self)@.insert(symbol@, first));
        assert(self@[symbol@] == self.values@[slot as int]);
        assert forall|k: Seq<char>|
            slots_of(self.index).contains_key(k) && k != symbol@ implies #[trigger] slots_of(
            self.index,
        )[k] != slot && old(self)@.contains_key(k) && old(self)@[k] == self.values@[slots_of(
            self.index,
        )[k] as int] by {
            assert(self.symbols@[slots_of(self.index)[k] as int]@ == k);
            assert(self@.contains_key(k));
            assert(self@[k] == self.values@[slots_of(self.index)[k] as int]);
        }
        assert forall|k: Seq<char>| #[trigger] old(self)@.contains_key(k) implies slots_of(
            self.index,
        ).contains_key(k) by {
            assert(self@.contains_key(k));
        }
        &mut self.values[slot]
    }

    /// The number of symbols.
    pub fn len(&self) -> (r: usize)
        ensures
            r == self.order().len(),
    {
        self.symbols.len()
    }

    /// The symbol in a given place of the order.
    pub fn symbol_at(&self, place: usize) -> (r: &str)
        requires
            place < self.order().len(),
        ensures
            r@ == self.order()[place as int],
    {
        self.symbols[place].as_str()
    }

    /// The value of the symbol in a given place of the order.
    pub fn value_at(&self, place: usize) -> (r: &T)
        requires
            self.wf(),
            place < self.order().len(),
        ensures
            self@.contains_key(self.order()[place as int]),
            *r == self@[self.order()[place as int]],
    {
        assert(self.symbols@[place as int]@ == self.order()[place as int]);
        &self.values[place]
    }
}

impl<T> View for SymbolMap<T> {
    type V = Map<Seq<char>, T>;

    closed spec fn view(&self) -> Map<Seq<char>, T> {
        Map::new(
            |symbol: Seq<char>| slots_of(self.index).contains_key(symbol),
            |symbol: Seq<char>| self.values@[slots_of(self.index)[symbol] as int],
        )
    }
}

} // verus!
