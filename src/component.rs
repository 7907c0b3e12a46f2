use vstd::prelude::*;

use crate::sparse_set::SparseSet;

verus! {

/// A value that a [`ComponentStorage`] can hold.
///
/// `type_tag` names the component type that the value belongs to; it must be
/// the same for every value of one type for the life of the process. The
/// storage records the tag when a value is inserted and is then addressed by
/// it, so a lookup under a tag only ever finds values recorded under it.
pub trait DynamicComponent {
    fn type_tag(&self) -> u64;
}

/// Components of many types, each type with a sparse set of its own.
///
/// `tags[k]` is the type tag whose components `sets[k]` holds. A set is made
/// the first time its type is inserted and stays for the life of the storage.
pub struct ComponentStorage<C> {
    tags: Vec<u64>,
    sets: Vec<SparseSet<C>>,
}

impl<C> ComponentStorage<C> {
    /// One set per tag, each of them well formed.
    pub closed spec fn wf(&self) -> bool {
        &&& self.tags@.len() == self.sets@.len()
        &&& forall|i: int, j: int|
            0 <= i < self.tags@.len() && 0 <= j < self.tags@.len() && i != j
                ==> #[trigger] self.tags@[i] != #[trigger] self.tags@[j]
        &&& forall|i: int| 0 <= i < self.sets@.len() ==> (#[trigger] self.sets@[i]).wf()
    }

    /// The position of the set for `tag`.
    spec fn slot(&self, tag: u64) -> int {
        choose|i: int| 0 <= i < self.tags@.len() && self.tags@[i] == tag
    }

    /// Each (type tag, entity) pair that holds a component, with the component.
    pub closed spec fn view(&self) -> Map<(u64, usize), C> {
        Map::new(
            |k: (u64, usize)|
                self.tags@.contains(k.0) && self.sets@[self.slot(k.0)]@.contains_key(k.1),
            |k: (u64, usize)| self.sets@[self.slot(k.0)]@[k.1],
        )
    }

    proof fn lemma_slot(&self, i: int)
        requires
            self.wf(),
            0 <= i < self.tags@.len(),
        ensures
            self.slot(self.tags@[i]) == i,
    {
        let k = self.slot(self.tags@[i]);
        assert(0 <= k < self.tags@.len() && self.tags@[k] == self.tags@[i]);
    }

    /// The position of the set for `tag`, if the storage has one.
    fn find(&self, tag: u64) -> (r: Option<usize>)
        requires
            self.wf(),
        ensures
            match r {
                Some(i) => {
                    &&& i < self.tags@.len()
                    &&& self.tags@[i as int] == tag
                    &&& self.slot(tag) == i
                },
                None => !self.tags@.contains(tag),
            },
    {
        let mut i: usize = 0;
        while i < self.tags.len()
            invariant
                self.wf(),
                i <= self.tags@.len(),
                forall|j: int| 0 <= j < i ==> self.tags@[j] != tag,
            decreases self.tags@.len() - i,
        {
            if self.tags[i] == tag {
                proof {
                    self.lemma_slot(i as int);
                }
                return Some(i);
            }
            i = i + 1;
        }
        None
    }

    /// An empty storage.
    pub fn new() -> (s: Self)
        ensures
            s.wf(),
            s@ == Map::<(u64, usize), C>::empty(),
    {
        let s = ComponentStorage { tags: Vec::new(), sets: Vec::new() };
        assert(s@ =~= Map::<(u64, usize), C>::empty());
        s
    }

    /// The component of type `tag` that `entity` holds, if any.
    pub fn get(&self, tag: u64, entity: usize) -> (r: Option<&C>)
        requires
            self.wf(),
        ensures
            match r {
                Some(c) => self@.contains_key((tag, entity)) && *c == self@[(tag, entity)],
                None => !self@.contains_key((tag, entity)),
            },
    {
        match self.find(tag) {
            Some(i) => self.sets[i].get(entity),
            None => None,
        }
    }

    /// Write access to the component of type `tag` that `entity` holds, if
    /// any. What is written through it is what the storage holds afterwards.
    pub fn get_mut(&mut self, tag: u64, entity: usize) -> (r: Option<&mut C>)
        requires
            old(self).wf(),
        ensures
            final(self).wf(),
            match r {
                Some(c) => {
                    &&& old(self)@.contains_key((tag, entity))
                    &&& *c == old(self)@[(tag, entity)]
                    &&& final(self)@ == old(self)@.insert((tag, entity), *final(c))
                },
                None => !old(self)@.contains_key((tag, entity)) && final(self)@ == old(self)@,
            },
    {
        match self.find(tag) {
            Some(i) => self.sets[i].get_mut(entity),
            None => None,
        }
    }

    /// Drops the component of type `tag` that `entity` holds; nothing happens
    /// where there is none.
    pub fn remove(&mut self, tag: u64, entity: usize)
        requires
            old(self).wf(),
        ensures
            final(self).wf(),
            final(self)@ == old(self)@.remove((tag, entity)),
    {
        match self.find(tag) {
            Some(i) => {
                let ghost before = self@;
                let _ = self.sets[i].remove(entity);
                assert(self@ =~= before.remove((tag, entity)));
            },
            None => {
                assert(self@ =~= self@.remove((tag, entity)));
            },
        }
    }
}

impl<C: DynamicComponent> ComponentStorage<C> {
    /// Stores `component` for `entity` under the type tag that the component
    /// reports, which is returned. A component of that type that the entity
    /// held before is replaced; the set of the type is made if there is none.
    pub fn insert(&mut self, entity: usize, component: C) -> (tag: u64)
        requires
            old(self).wf(),
            entity < usize::MAX,
        ensures
            final(self).wf(),
            final(self)@ == old(self)@.insert((tag, entity), component),
    {
        let tag = component.type_tag();
        let ghost before = self@;
        let ghost after = before.insert((tag, entity), component);
        match self.find(tag) {
            Some(i) => {
                self.sets[i].insert(entity, component);
                proof {
                    assert forall|k: (u64, usize)|
                        #![trigger self@.dom().contains(k)]
                        #![trigger after.dom().contains(k)]
                        self@.dom().contains(k) == after.dom().contains(k) && (self@.dom().contains(
                            k,
                        ) ==> self@[k] == after[k]) by {
                        if self.tags@.contains(k.0) {
                            let j = choose|j: int| 0 <= j < self.tags@.len() && self.tags@[j] == k.0;
                            self.lemma_slot(j);
                            old(self).lemma_slot(j);
                        }
                    }
                }
                assert(self@ =~= after);
            },
            None => {
                let mut set = SparseSet::new();
                set.insert(entity, component);
                self.tags.push(tag);
                self.sets.push(set);
                proof {
                    assert(self.tags@ == old(self).tags@.push(tag));
                    assert(self.sets@ == old(self).sets@.push(set));
                    assert forall|k: (u64, usize)|
                        #![trigger self@.dom().contains(k)]
                        #![trigger after.dom().contains(k)]
                        self@.dom().contains(k) == after.dom().contains(k) && (self@.dom().contains(
                            k,
                        ) ==> self@[k] == after[k]) by {
                        let n = old(self).tags@.len() as int;
                        if k.0 == tag {
                            self.lemma_slot(n);
                            assert(self.slot(k.0) == n);
                            assert(!before.contains_key(k));
                        } else if old(self).tags@.contains(k.0) {
                            let j = choose|j: int|
                                0 <= j < old(self).tags@.len() && old(self).tags@[j] == k.0;
                            assert(self.tags@[j] == k.0);
                            self.lemma_slot(j);
                            old(self).lemma_slot(j);
                            assert(self.sets@[j] == old(self).sets@[j]);
                        } else {
                            assert(!self.tags@.contains(k.0));
                        }
                    }
                }
                assert(self@ =~= after);
            },
        }
        tag
    }
}

/// After `insert(entity, c)` has recorded `c` under `tag`, `get(tag, entity)`
/// finds exactly `c`.
pub proof fn lemma_insert_then_get<C>(
    before: ComponentStorage<C>,
    after: ComponentStorage<C>,
    tag: u64,
    entity: usize,
    c: C,
)
    requires
        after@ == before@.insert((tag, entity), c),
    ensures
        after@.contains_key((tag, entity)),
        after@[(tag, entity)] == c,
{
}

/// A value written through the reference that `get_mut(tag, entity)` hands
/// out is what a later `get(tag, entity)` finds.
pub proof fn lemma_get_mut_write_visible<C>(
    before: ComponentStorage<C>,
    after: ComponentStorage<C>,
    tag: u64,
    entity: usize,
    written: C,
)
    requires
        before@.contains_key((tag, entity)),
        after@ == before@.insert((tag, entity), written),
    ensures
        after@.contains_key((tag, entity)),
        after@[(tag, entity)] == written,
{
}

/// Inserting or removing a component of one type leaves the component of any
/// other type of the same entity as it was.
pub proof fn lemma_types_isolated<C>(
    before: ComponentStorage<C>,
    entity: usize,
    tag_a: u64,
    tag_b: u64,
    c: C,
)
    requires
        tag_a != tag_b,
    ensures
        before@.insert((tag_a, entity), c).contains_key((tag_b, entity)) == before@.contains_key(
            (tag_b, entity),
        ),
        before@.insert((tag_a, entity), c)[(tag_b, entity)] == before@[(tag_b, entity)],
        before@.remove((tag_a, entity)).contains_key((tag_b, entity)) == before@.contains_key(
            (tag_b, entity),
        ),
        before@.remove((tag_a, entity))[(tag_b, entity)] == before@[(tag_b, entity)],
{
}

/// Inserting or removing a component of one type for one entity leaves the
/// component of that type of any other entity as it was.
pub proof fn lemma_entities_isolated<C>(
    before: ComponentStorage<C>,
    tag: u64,
    e1: usize,
    e2: usize,
    c: C,
)
    requires
        e1 != e2,
    ensures
        before@.insert((tag, e1), c).contains_key((tag, e2)) == before@.contains_key((tag, e2)),
        before@.insert((tag, e1), c)[(tag, e2)] == before@[(tag, e2)],
        before@.remove((tag, e1)).contains_key((tag, e2)) == before@.contains_key((tag, e2)),
        before@.remove((tag, e1))[(tag, e2)] == before@[(tag, e2)],
{
}

/// After `remove(tag, entity)` nothing is found for the pair; a later insert
/// of `c2` under the same tag is found again.
pub proof fn lemma_remove_then_insert<C>(
    before: ComponentStorage<C>,
    tag: u64,
    entity: usize,
    c2: C,
)
    ensures
        !before@.remove((tag, entity)).contains_key((tag, entity)),
        before@.remove((tag, entity)).insert((tag, entity), c2).contains_key((tag, entity)),
        before@.remove((tag, entity)).insert((tag, entity), c2)[(tag, entity)] == c2,
{
}

/// Removing the same pair twice leaves the storage as removing it once.
pub proof fn lemma_remove_idempotent<C>(before: ComponentStorage<C>, tag: u64, entity: usize)
    ensures
        before@.remove((tag, entity)).remove((tag, entity)) == before@.remove((tag, entity)),
{
    assert(before@.remove((tag, entity)).remove((tag, entity)) =~= before@.remove((tag, entity)));
}

} // verus!
