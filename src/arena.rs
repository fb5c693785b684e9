//! Arenas of entities addressed by stable ids that are never handed out twice.
use std::marker::PhantomData;
use vstd::prelude::*;

verus! {

/// An id into an [`ArenaAllocator`] whose elements are tagged by `M`.
#[derive(Debug, PartialEq, Eq, Hash)]
pub struct UUID<M> {
    pub hidden_value: usize,
    pub marker: PhantomData<M>,
}

impl<M> Clone for UUID<M> {
    fn clone(&self) -> (r: Self)
        ensures
            r.hidden_value == self.hidden_value,
    {
        UUID { hidden_value: self.hidden_value, marker: PhantomData }
    }
}

impl<M> Copy for UUID<M> {
}

impl<M> UUID<M> {
    pub fn from_hidden_value(v: usize) -> (r: Self)
        ensures
            r.hidden_value == v,
    {
        UUID { hidden_value: v, marker: PhantomData }
    }

    pub fn get_hidden_value(&self) -> (r: usize)
        ensures
            r == self.hidden_value,
    {
        self.hidden_value
    }
}

/// The state of one place of an arena.
pub enum ArenaSlot<T> {
    /// Handed out by `reserve`, not filled yet.
    Reserved,
    Filled(T),
    /// Freed: the id stays taken for the rest of the session.
    Freed,
}

pub struct ArenaAllocator<T, M> {
    slots: Vec<ArenaSlot<T>>,
    marker: PhantomData<M>,
}

impl<T, M> ArenaAllocator<T, M> {
    pub closed spec fn view(&self) -> Seq<ArenaSlot<T>> {
        self.slots@
    }

    pub open spec fn is_filled(&self, id: UUID<M>) -> bool {
        id.hidden_value < self@.len() && self@[id.hidden_value as int] is Filled
    }

    pub open spec fn spec_get(&self, id: UUID<M>) -> T
        recommends
            self.is_filled(id),
    {
        self@[id.hidden_value as int]->Filled_0
    }

    pub fn new() -> (r: Self)
        ensures
            r@ == Seq::<ArenaSlot<T>>::empty(),
    {
        ArenaAllocator { slots: Vec::new(), marker: PhantomData }
    }

    pub fn len(&self) -> (r: usize)
        ensures
            r == self@.len(),
    {
        self.slots.len()
    }

    pub fn allocate(&mut self, v: T) -> (r: UUID<M>)
        ensures
            r.hidden_value == old(self)@.len(),
            final(self)@ == old(self)@.push(ArenaSlot::Filled(v)),
    {
        let id = UUID::from_hidden_value(self.slots.len());
        self.slots.push(ArenaSlot::Filled(v));
        id
    }

    pub fn reserve(&mut self) -> (r: UUID<M>)
        ensures
            r.hidden_value == old(self)@.len(),
            final(self)@ == old(self)@.push(ArenaSlot::Reserved),
    {
        let id = UUID::from_hidden_value(self.slots.len());
        self.slots.push(ArenaSlot::Reserved);
        id
    }

    /// Fills a place that `reserve` handed out.
    pub fn alloc_reservation(&mut self, id: UUID<M>, v: T)
        requires
            id.hidden_value < old(self)@.len(),
            old(self)@[id.hidden_value as int] is Reserved,
        ensures
            final(self)@ == old(self)@.update(id.hidden_value as int, ArenaSlot::Filled(v)),
    {
        self.slots.set(id.hidden_value, ArenaSlot::Filled(v));
    }

    /// Empties a filled place again, keeping the id for a later `alloc_reservation`.
    pub fn revert_to_reservation(&mut self, id: UUID<M>)
        requires
            old(self).is_filled(id),
        ensures
            final(self)@ == old(self)@.update(id.hidden_value as int, ArenaSlot::Reserved),
    {
        self.slots.set(id.hidden_value, ArenaSlot::Reserved);
    }

    /// Frees a place for good: its id is never handed out again.
    pub fn free(&mut self, id: UUID<M>)
        requires
            id.hidden_value < old(self)@.len(),
            !(old(self)@[id.hidden_value as int] is Freed),
        ensures
            final(self)@ == old(self)@.update(id.hidden_value as int, ArenaSlot::Freed),
    {
        self.slots.set(id.hidden_value, ArenaSlot::Freed);
    }

    pub fn is_live(&self, id: UUID<M>) -> (r: bool)
        ensures
            r == self.is_filled(id),
    {
        id.hidden_value < self.slots.len() && match &self.slots[id.hidden_value] {
            ArenaSlot::Filled(_) => true,
            _ => false,
        }
    }

    pub fn get_mut(&mut self, id: UUID<M>) -> (r: &mut T)
        requires
            old(self).is_filled(id),
        ensures
            *r == old(self).spec_get(id),
            final(self)@ == old(self)@.update(id.hidden_value as int, ArenaSlot::Filled(*final(r))),
    {
        match &mut self.slots[id.hidden_value] {
            ArenaSlot::Filled(v) => v,
            _ => {
                proof {
                    assert(false);
                }
                unreached()
            },
        }
    }

    pub fn get(&self, id: UUID<M>) -> (r: &T)
        requires
            self.is_filled(id),
        ensures
            *r == self.spec_get(id),
    {
        match &self.slots[id.hidden_value] {
            ArenaSlot::Filled(v) => v,
            _ => {
                proof {
                    assert(false);
                }
                unreached()
            },
        }
    }
}

} // verus!
