//! A small entity component system: entities are ids, and each component
//! kind lives in a sparse vector indexed by entity id.

use vstd::prelude::*;

verus! {

/// Entities are just ids.
#[derive(Debug, Clone, Copy, PartialEq, Eq, Hash, Structural)]
pub struct Entity(pub usize);

impl Entity {
    /// The id of this entity.
    pub fn id(&self) -> (r: usize)
        ensures
            r == self.0,
    {
        self.0
    }
}

/// Marker for the types that can be stored as components.
pub trait Component: Sized {}

/// Read access to one kind of component.
pub trait ReadAccess<C> {
    /// The component of `entity`, if it has one.
    fn fetch(&self, entity: Entity) -> Option<&C>;
}

/// Write access to one kind of component.
pub trait WriteAccess<C> {
    /// Sets the component of `entity`.
    fn set(&mut self, entity: Entity, value: C);

    /// Removes the component of `entity`.
    fn unset(&mut self, entity: Entity);

    /// Removes every component of this kind.
    fn clear(&mut self);
}

/// The slot of entity `e` in sparse storage `s`.
pub open spec fn slot<C>(s: Seq<Option<C>>, e: Entity) -> Option<C> {
    if e.0 < s.len() {
        s[e.0 as int]
    } else {
        None
    }
}

/// Sparse storage `n` is `o` with entity `e`'s slot set to `v`: it grows to
/// hold slot `e` if it must, new slots before `e` being empty, and no other
/// slot changes.
pub open spec fn slot_set<C>(o: Seq<Option<C>>, n: Seq<Option<C>>, e: Entity, v: Option<C>) -> bool {
    &&& n.len() == if e.0 < o.len() { o.len() as int } else { e.0 + 1 }
    &&& n[e.0 as int] == v
    &&& forall|k: int| 0 <= k < n.len() && k != e.0 ==> #[trigger] n[k] == if k < o.len() { o[k] } else { None }
}

/// The entities that have a component in `s`, in id order.
pub open spec fn occupied<C>(s: Seq<Option<C>>) -> Seq<Entity>
    decreases s.len(),
{
    if s.len() == 0 {
        Seq::empty()
    } else {
        let rest = occupied(s.drop_last());
        if s.last().is_some() {
            rest.push(Entity((s.len() - 1) as usize))
        } else {
            rest
        }
    }
}

/// Sparse vector storage of one component kind: slot `i` holds entity `i`'s
/// component, if it has one. Reads are fast; writes may have to grow the
/// vector.
#[derive(Debug)]
pub struct VecStorage<C> {
    data: Vec<Option<C>>,
}

impl<C> VecStorage<C> {
    /// The slots, by entity id.
    pub closed spec fn view(&self) -> Seq<Option<C>> {
        self.data@
    }

    /// An empty storage.
    pub fn new() -> (r: VecStorage<C>)
        ensures
            r@.len() == 0,
    {
        VecStorage { data: Vec::new() }
    }

    /// Read access to the slots.
    pub fn read(&self) -> (r: VecReader<'_, C>)
        ensures
            r@ == self@,
    {
        VecReader::new(&self.data)
    }

    /// Write access to the slots; what is written through it is what the
    /// storage holds once the writer is gone.
    pub fn write(&mut self) -> (r: VecWriter<'_, C>)
        ensures
            r@ == old(self)@,
            final(r.data)@ == final(self)@,
    {
        VecWriter::new(&mut self.data)
    }
}

impl<C> Default for VecStorage<C> {
    fn default() -> (r: VecStorage<C>)
        ensures
            r@.len() == 0,
    {
        VecStorage::new()
    }
}

/// Read access to a `VecStorage`.
pub struct VecReader<'v, C> {
    data: &'v Vec<Option<C>>,
}

impl<'v, C> VecReader<'v, C> {
    /// The slots, by entity id.
    pub closed spec fn view(&self) -> Seq<Option<C>> {
        self.data@
    }

    /// A reader of the given slots.
    pub fn new(data: &'v Vec<Option<C>>) -> (r: VecReader<'v, C>)
        ensures
            r@ == data@,
    {
        VecReader { data }
    }

    /// The component of `entity`, if it has one.
    pub fn fetch(&self, entity: Entity) -> (r: Option<&C>)
        ensures
            r.is_some() == slot(self@, entity).is_some(),
            r.is_some() ==> *r.unwrap() == slot(self@, entity).unwrap(),
    {
        if entity.0 < self.data.len() {
            match &self.data[entity.0] {
                Some(c) => Some(c),
                None => None,
            }
        } else {
            None
        }
    }

    /// The entities that have a component, in id order.
    pub fn entities(&self) -> (r: Vec<Entity>)
        ensures
            r@ == occupied(self@),
    {
        let mut out: Vec<Entity> = Vec::new();
        let mut i: usize = 0;
        while i < self.data.len()
            invariant
                i <= self@.len(),
                out@ == occupied(self@.subrange(0, i as int)),
            decreases self@.len() - i,
        {
            assert(self@.subrange(0, i + 1).drop_last() =~= self@.subrange(0, i as int));
            if self.data[i].is_some() {
                out.push(Entity(i));
            }
            i = i + 1;
        }
        assert(self@.subrange(0, self@.len() as int) =~= self@);
        out
    }
}

impl<'v, C> ReadAccess<C> for VecReader<'v, C> {
    fn fetch(&self, entity: Entity) -> Option<&C> {
        VecReader::fetch(self, entity)
    }
}

/// Write access to a `VecStorage`. It borrows the slots mutably, so there is
/// only ever one writer at a time.
pub struct VecWriter<'v, C> {
    pub data: &'v mut Vec<Option<C>>,
}

impl<'v, C> VecWriter<'v, C> {
    /// The slots, by entity id.
    pub open spec fn view(&self) -> Seq<Option<C>> {
        self.data@
    }

    /// A writer of the given slots.
    pub fn new(data: &'v mut Vec<Option<C>>) -> (r: VecWriter<'v, C>)
        ensures
            r@ == old(data)@,
            final(r.data)@ == final(data)@,
    {
        VecWriter { data }
    }

    /// Sets the component of `entity`, growing the slots to hold it.
    pub fn set(&mut self, entity: Entity, value: C)
        requires
            entity.0 < usize::MAX,
        ensures
            slot_set(old(self)@, final(self)@, entity, Some(value)),
            final(final(self).data)@ == final(old(self).data)@,
    {
        let e = entity.0;
        if e < self.data.len() {
            self.data.set(e, Some(value));
        } else {
            let gap = e - self.data.len();
            let mut pad: Vec<Option<C>> = Vec::new();
            let mut i: usize = 0;
            while i < gap
                invariant
                    i <= gap,
                    pad@.len() == i,
                    forall|k: int| 0 <= k < i ==> #[trigger] pad@[k] == None::<C>,
                decreases gap - i,
            {
                pad.push(None);
                i = i + 1;
            }
            self.data.append(&mut pad);
            self.data.push(Some(value));
        }
    }

    /// Removes the component of `entity`; nothing changes if it has none.
    pub fn unset(&mut self, entity: Entity)
        ensures
            entity.0 < old(self)@.len() ==> final(self)@ == old(self)@.update(entity.0 as int, None),
            entity.0 >= old(self)@.len() ==> final(self)@ == old(self)@,
            final(final(self).data)@ == final(old(self).data)@,
    {
        if entity.0 < self.data.len() {
            self.data.set(entity.0, None);
        }
    }

    /// Removes every component of this kind.
    pub fn clear(&mut self)
        ensures
            final(self)@.len() == 0,
            final(final(self).data)@ == final(old(self).data)@,
    {
        self.data.clear();
    }
}

impl<'v, C> WriteAccess<C> for VecWriter<'v, C> {
    /// Sets the component of `entity`; the id `usize::MAX` has no slot, and
    /// setting it changes nothing.
    fn set(&mut self, entity: Entity, value: C) {
        if entity.0 < usize::MAX {
            VecWriter::set(self, entity, value);
        }
    }

    fn unset(&mut self, entity: Entity) {
        VecWriter::unset(self, entity);
    }

    fn clear(&mut self) {
        VecWriter::clear(self);
    }
}

} // verus!
