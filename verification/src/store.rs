//! Keyed stores of cells and abstracts.
//!
//! A store hands out a key for each value put into it. Keys stay valid while
//! further values are added, and a key is never handed out twice by one
//! store. Values leave a store only with the store itself.
//!
//! A store keeps its values in a `slotmap::SlotMap`. Verus does not look
//! into the slot map: what it knows of a store is what the private
//! functions `raw_new`, `raw_len`, `raw_insert`, `raw_get` and `raw_keys`
//! state of the slot map's methods, over the two names that stand for what
//! a store holds. These statements are taken from the slot map's source and
//! are not proved.

use vstd::prelude::*;
use slotmap::{DefaultKey, SlotMap};
use crate::abstrakt::Abstract;
use crate::cell::Cell;

verus! {

/// `slotmap::DefaultKey`, of which only equality is used.
#[verifier::external_type_specification]
#[verifier::external_body]
pub struct ExDefaultKey(DefaultKey);

/// Key of a cell in a [`CellStore`].
#[derive(Debug, Clone, Copy, PartialEq, Eq)]
pub struct CellKey(pub DefaultKey);

/// Key of an abstract in an [`AbstractStore`].
#[derive(Debug, Clone, Copy, PartialEq, Eq)]
pub struct AbstractKey(pub DefaultKey);

/// The largest number of values that a store takes: a slot map has slots
/// for one less than `u32::MAX` values.
pub const STORE_LIMIT: usize = 0xffff_fffe;

/// The cells of a library, each under its key. The slot map inside is
/// reached through the functions of the store only, which add values and
/// never remove one.
#[verifier::external_body]
#[derive(Debug)]
pub struct CellStore {
    inner: SlotMap<DefaultKey, Cell>,
}

/// The abstracts of a library, each under its key. The slot map inside is
/// reached through the functions of the store only, which add values and
/// never remove one.
#[verifier::external_body]
#[derive(Debug)]
pub struct AbstractStore {
    inner: SlotMap<DefaultKey, Abstract>,
}

/// The cell that a store holds under each of its keys: what `SlotMap::get`
/// finds.
pub uninterp spec fn cell_entries(s: CellStore) -> Map<CellKey, Cell>;

/// The keys of a store in the order in which it is walked: what
/// `SlotMap::keys` yields.
pub uninterp spec fn cell_order(s: CellStore) -> Seq<CellKey>;

/// The abstract that a store holds under each of its keys: what
/// `SlotMap::get` finds.
pub uninterp spec fn abstract_entries(s: AbstractStore) -> Map<AbstractKey, Abstract>;

/// The keys of a store in the order in which it is walked: what
/// `SlotMap::keys` yields.
pub uninterp spec fn abstract_order(s: AbstractStore) -> Seq<AbstractKey>;

impl CellStore {
    /// `SlotMap::with_key`: an empty slot map, which holds no key.
    #[verifier::external_body]
    fn raw_new() -> (r: CellStore)
        ensures
            forall|k: CellKey| !cell_entries(r).dom().contains(k),
            cell_order(r).len() == 0,
    {
        CellStore { inner: SlotMap::with_key() }
    }

    /// `SlotMap::len`: the number of values held, which is the number of
    /// keys that a walk visits.
    #[verifier::external_body]
    fn raw_len(&self) -> (r: usize)
        ensures
            r == cell_order(*self).len(),
    {
        self.inner.len()
    }

    /// `SlotMap::insert`: stores the value in a slot that held none and
    /// returns that slot's key. A store never removes a value, so no slot
    /// is free for reuse: the slot is a new one behind all others, and a
    /// walk, which goes by slots, visits it last. The slot map panics only
    /// where all of its `u32::MAX - 1` slots are taken.
    #[verifier::external_body]
    fn raw_insert(&mut self, cell: Cell) -> (k: CellKey)
        requires
            cell_order(*old(self)).len() < STORE_LIMIT,
        ensures
            !cell_entries(*old(self)).dom().contains(k),
            cell_entries(*final(self)) == cell_entries(*old(self)).insert(k, cell),
            cell_order(*final(self)) == cell_order(*old(self)).push(k),
    {
        CellKey(self.inner.insert(cell))
    }

    /// `SlotMap::get`: the value under the key, where the slot map holds
    /// that key, and nothing where it does not.
    #[verifier::external_body]
    fn raw_get(&self, k: CellKey) -> (r: Option<&Cell>)
        ensures
            cell_entries(*self).dom().contains(k) ==> r == Some(&cell_entries(*self)[k]),
            !cell_entries(*self).dom().contains(k) ==> r is None,
    {
        self.inner.get(k.0)
    }

    /// `SlotMap::keys`: every key held, once, in slot order.
    #[verifier::external_body]
    fn raw_keys(&self) -> (r: Vec<CellKey>)
        ensures
            r@ == cell_order(*self),
            r@.no_duplicates(),
            forall|k: CellKey| r@.contains(k) <==> cell_entries(*self).dom().contains(k),
    {
        self.inner.keys().map(CellKey).collect()
    }

    /// The cell under each key.
    pub open spec fn entries(&self) -> Map<CellKey, Cell> {
        cell_entries(*self)
    }

    /// The keys in walking order.
    pub open spec fn order(&self) -> Seq<CellKey> {
        cell_order(*self)
    }

    /// The cells in walking order.
    pub open spec fn values(&self) -> Seq<Cell> {
        self.order().map_values(|k: CellKey| self.entries()[k])
    }

    /// An empty store.
    pub fn new() -> (r: CellStore)
        ensures
            r.order().len() == 0,
            forall|k: CellKey| !r.entries().dom().contains(k),
    {
        CellStore::raw_new()
    }

    /// The number of cells held.
    pub fn len(&self) -> (r: usize)
        ensures
            r == self.order().len(),
    {
        self.raw_len()
    }

    /// Adds `cell` and returns its key, which the store did not hold.
    pub fn insert(&mut self, cell: Cell) -> (k: CellKey)
        requires
            old(self).order().len() < STORE_LIMIT,
        ensures
            !old(self).entries().dom().contains(k),
            final(self).entries() == old(self).entries().insert(k, cell),
            final(self).order() == old(self).order().push(k),
    {
        self.raw_insert(cell)
    }

    /// Adds `cell` and returns its key, unless the store is full: then the
    /// store stays as it is and the cell is handed back.
    pub fn try_insert(&mut self, cell: Cell) -> (r: Result<CellKey, Cell>)
        ensures
            r is Ok <==> old(self).order().len() < STORE_LIMIT,
            r matches Ok(k) ==> !old(self).entries().dom().contains(k) && final(self).entries()
                == old(self).entries().insert(k, cell) && final(self).order() == old(
                self,
            ).order().push(k),
            r matches Err(c) ==> c == cell && *final(self) == *old(self),
    {
        if self.len() < STORE_LIMIT {
            Ok(self.insert(cell))
        } else {
            Err(cell)
        }
    }

    /// The cell under `k`, if the store holds that key.
    pub fn get(&self, k: CellKey) -> (r: Option<&Cell>)
        ensures
            self.entries().dom().contains(k) ==> r == Some(&self.entries()[k]),
            !self.entries().dom().contains(k) ==> r is None,
    {
        self.raw_get(k)
    }

    /// Every key held, once, in walking order.
    pub fn keys(&self) -> (r: Vec<CellKey>)
        ensures
            r@ == self.order(),
            r@.no_duplicates(),
            forall|k: CellKey| r@.contains(k) <==> self.entries().dom().contains(k),
    {
        self.raw_keys()
    }
}

impl Default for CellStore {
    /// An empty store.
    fn default() -> (r: CellStore)
        ensures
            r.order().len() == 0,
            forall|k: CellKey| !r.entries().dom().contains(k),
    {
        CellStore::new()
    }
}

impl Default for AbstractStore {
    /// An empty store.
    fn default() -> (r: AbstractStore)
        ensures
            r.order().len() == 0,
            forall|k: AbstractKey| !r.entries().dom().contains(k),
    {
        AbstractStore::new()
    }
}

impl AbstractStore {
    /// `SlotMap::with_key`: an empty slot map, which holds no key.
    #[verifier::external_body]
    fn raw_new() -> (r: AbstractStore)
        ensures
            forall|k: AbstractKey| !abstract_entries(r).dom().contains(k),
            abstract_order(r).len() == 0,
    {
        AbstractStore { inner: SlotMap::with_key() }
    }

    /// `SlotMap::len`: the number of values held, which is the number of
    /// keys that a walk visits.
    #[verifier::external_body]
    fn raw_len(&self) -> (r: usize)
        ensures
            r == abstract_order(*self).len(),
    {
        self.inner.len()
    }

    /// `SlotMap::insert`: stores the value in a slot that held none and
    /// returns that slot's key. A store never removes a value, so no slot
    /// is free for reuse: the slot is a new one behind all others, and a
    /// walk, which goes by slots, visits it last. The slot map panics only
    /// where all of its `u32::MAX - 1` slots are taken.
    #[verifier::external_body]
    fn raw_insert(&mut self, abs: Abstract) -> (k: AbstractKey)
        requires
            abstract_order(*old(self)).len() < STORE_LIMIT,
        ensures
            !abstract_entries(*old(self)).dom().contains(k),
            abstract_entries(*final(self)) == abstract_entries(*old(self)).insert(k, abs),
            abstract_order(*final(self)) == abstract_order(*old(self)).push(k),
    {
        AbstractKey(self.inner.insert(abs))
    }

    /// `SlotMap::get`: the value under the key, where the slot map holds
    /// that key, and nothing where it does not.
    #[verifier::external_body]
    fn raw_get(&self, k: AbstractKey) -> (r: Option<&Abstract>)
        ensures
            abstract_entries(*self).dom().contains(k) ==> r == Some(&abstract_entries(*self)[k]),
            !abstract_entries(*self).dom().contains(k) ==> r is None,
    {
        self.inner.get(k.0)
    }

    /// `SlotMap::keys`: every key held, once, in slot order.
    #[verifier::external_body]
    fn raw_keys(&self) -> (r: Vec<AbstractKey>)
        ensures
            r@ == abstract_order(*self),
            r@.no_duplicates(),
            forall|k: AbstractKey| r@.contains(k) <==> abstract_entries(*self).dom().contains(k),
    {
        self.inner.keys().map(AbstractKey).collect()
    }

    /// The abstract under each key.
    pub open spec fn entries(&self) -> Map<AbstractKey, Abstract> {
        abstract_entries(*self)
    }

    /// The keys in walking order.
    pub open spec fn order(&self) -> Seq<AbstractKey> {
        abstract_order(*self)
    }

    /// The abstracts in walking order.
    pub open spec fn values(&self) -> Seq<Abstract> {
        self.order().map_values(|k: AbstractKey| self.entries()[k])
    }

    /// An empty store.
    pub fn new() -> (r: AbstractStore)
        ensures
            r.order().len() == 0,
            forall|k: AbstractKey| !r.entries().dom().contains(k),
    {
        AbstractStore::raw_new()
    }

    /// The number of abstracts held.
    pub fn len(&self) -> (r: usize)
        ensures
            r == self.order().len(),
    {
        self.raw_len()
    }

    /// Adds `abs` and returns its key, which the store did not hold.
    pub fn insert(&mut self, abs: Abstract) -> (k: AbstractKey)
        requires
            old(self).order().len() < STORE_LIMIT,
        ensures
            !old(self).entries().dom().contains(k),
            final(self).entries() == old(self).entries().insert(k, abs),
            final(self).order() == old(self).order().push(k),
    {
        self.raw_insert(abs)
    }

    /// Adds `abs` and returns its key, unless the store is full: then the
    /// store stays as it is and the abstract is handed back.
    pub fn try_insert(&mut self, abs: Abstract) -> (r: Result<AbstractKey, Abstract>)
        ensures
            r is Ok <==> old(self).order().len() < STORE_LIMIT,
            r matches Ok(k) ==> !old(self).entries().dom().contains(k) && final(self).entries()
                == old(self).entries().insert(k, abs) && final(self).order() == old(
                self,
            ).order().push(k),
            r matches Err(a) ==> a == abs && *final(self) == *old(self),
    {
        if self.len() < STORE_LIMIT {
            Ok(self.insert(abs))
        } else {
            Err(abs)
        }
    }

    /// The abstract under `k`, if the store holds that key.
    pub fn get(&self, k: AbstractKey) -> (r: Option<&Abstract>)
        ensures
            self.entries().dom().contains(k) ==> r == Some(&self.entries()[k]),
            !self.entries().dom().contains(k) ==> r is None,
    {
        self.raw_get(k)
    }

    /// Every key held, once, in walking order.
    pub fn keys(&self) -> (r: Vec<AbstractKey>)
        ensures
            r@ == self.order(),
            r@.no_duplicates(),
            forall|k: AbstractKey| r@.contains(k) <==> self.entries().dom().contains(k),
    {
        self.raw_keys()
    }
}

} // verus!
