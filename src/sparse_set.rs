use vstd::prelude::*;

verus! {

/// Dense storage for one component type, keyed by sparse entity ids.
///
/// `sparse[e]` holds the dense slot of entity `e`, if it has one; `dense[i]`
/// holds the value of slot `i` and `ids[i]` the entity that owns it.
pub struct SparseSet<T> {
    sparse: Vec<Option<usize>>,
    dense: Vec<T>,
    ids: Vec<usize>,
}

impl<T> SparseSet<T> {
    /// The shape invariant: the two index arrays are inverse to each other.
    pub closed spec fn wf(&self) -> bool {
        &&& self.dense@.len() == self.ids@.len()
        &&& forall|i: int|
            0 <= i < self.ids@.len() ==> {
                &&& (#[trigger] self.ids@[i]) < self.sparse@.len()
                &&& self.sparse@[self.ids@[i] as int].is_some()
                &&& self.sparse@[self.ids@[i] as int].unwrap() as int == i
            }
        &&& forall|e: int|
            0 <= e < self.sparse@.len() && (#[trigger] self.sparse@[e]).is_some() ==> {
                &&& self.sparse@[e].unwrap() < self.ids@.len()
                &&& self.ids@[self.sparse@[e].unwrap() as int] == e
            }
    }

    /// The entities that hold a slot, each with its value.
    pub closed spec fn view(&self) -> Map<usize, T> {
        Map::new(
            |e: usize| e < self.sparse@.len() && self.sparse@[e as int].is_some(),
            |e: usize| self.dense@[self.sparse@[e as int].unwrap() as int],
        )
    }

    /// An empty set.
    pub fn new() -> (s: Self)
        ensures
            s.wf(),
            s@ == Map::<usize, T>::empty(),
    {
        let s = SparseSet { sparse: Vec::new(), dense: Vec::new(), ids: Vec::new() };
        assert(s@ =~= Map::<usize, T>::empty());
        s
    }

    /// The number of entities that hold a slot.
    pub fn len(&self) -> (n: usize)
        requires
            self.wf(),
        ensures
            n == self@.len(),
    {
        proof {
            self.lemma_len();
        }
        self.dense.len()
    }

    proof fn lemma_len(&self)
        requires
            self.wf(),
        ensures
            self@.dom().finite(),
            self@.len() == self.ids@.len(),
    {
        let ids = self.ids@;
        let dom = self@.dom();
        assert forall|e: usize| dom.contains(e) implies #[trigger] ids.contains(e) by {
            let i = self.sparse@[e as int].unwrap() as int;
            assert(ids[i] == e);
        }
        assert forall|e: usize| ids.contains(e) implies #[trigger] dom.contains(e) by {
            let i = choose|i: int| 0 <= i < ids.len() && ids[i] == e;
            assert(self.sparse@[ids[i] as int].unwrap() as int == i);
        }
        assert(ids.no_duplicates()) by {
            assert forall|i: int, j: int|
                0 <= i < ids.len() && 0 <= j < ids.len() && i != j implies ids[i] != ids[j] by {
                assert(self.sparse@[ids[i] as int].unwrap() as int == i);
                assert(self.sparse@[ids[j] as int].unwrap() as int == j);
            }
        }
        ids.unique_seq_to_set();
        assert(dom =~= ids.to_set());
    }

    /// Whether `id` holds a slot.
    pub fn contains(&self, id: usize) -> (r: bool)
        requires
            self.wf(),
        ensures
            r == self@.contains_key(id),
    {
        id < self.sparse.len() && self.sparse[id].is_some()
    }

    /// The value stored for `id`, if any.
    pub fn get(&self, id: usize) -> (r: Option<&T>)
        requires
            self.wf(),
        ensures
            match r {
                Some(v) => self@.contains_key(id) && *v == self@[id],
                None => !self@.contains_key(id),
            },
    {
        if id < self.sparse.len() {
            match self.sparse[id] {
                Some(i) => Some(&self.dense[i]),
                None => None,
            }
        } else {
            None
        }
    }

    /// Write access to the value stored for `id`, if any.
    pub fn get_mut(&mut self, id: usize) -> (r: Option<&mut T>)
        requires
            old(self).wf(),
        ensures
            final(self).wf(),
            match r {
                Some(v) => {
                    &&& old(self)@.contains_key(id)
                    &&& *v == old(self)@[id]
                    &&& final(self)@ == old(self)@.insert(id, *final(v))
                },
                None => !old(self)@.contains_key(id) && final(self)@ == old(self)@,
            },
    {
        if id < self.sparse.len() {
            match self.sparse[id] {
                Some(i) => {
                    let r = &mut self.dense[i];
                    Some(r)
                },
                None => None,
            }
        } else {
            None
        }
    }

    /// Stores `value` for `id`: a new slot at the end of the dense array, or
    /// the old slot's contents replaced. The sparse array grows to cover
    /// `id`, which therefore stays below the largest `usize`.
    pub fn insert(&mut self, id: usize, value: T)
        requires
            old(self).wf(),
            id < usize::MAX,
        ensures
            final(self).wf(),
            final(self)@ == old(self)@.insert(id, value),
    {
        let ghost before = self@;
        while self.sparse.len() <= id
            invariant
                self.wf(),
                self@ == before,
            decreases id + 1 - self.sparse@.len(),
        {
            self.sparse.push(None);
            assert(self@ =~= before);
        }
        match self.sparse[id] {
            Some(i) => {
                self.dense.set(i, value);
            },
            None => {
                let i = self.dense.len();
                self.dense.push(value);
                self.ids.push(id);
                self.sparse.set(id, Some(i));
            },
        }
        assert(self@ =~= before.insert(id, value));
    }

    /// Takes the slot of `id` out, if it has one. The last slot moves into
    /// the freed place, so that the dense array stays compact.
    pub fn remove(&mut self, id: usize) -> (r: Option<T>)
        requires
            old(self).wf(),
        ensures
            final(self).wf(),
            final(self)@ == old(self)@.remove(id),
            match r {
                Some(v) => old(self)@.contains_key(id) && v == old(self)@[id],
                None => !old(self)@.contains_key(id),
            },
    {
        if id >= self.sparse.len() {
            return None;
        }
        match self.sparse[id] {
            None => None,
            Some(i) => {
                let ghost before = self@;
                let last = self.dense.len() - 1;
                let v = self.dense.swap_remove(i);
                self.ids.swap_remove(i);
                if i < last {
                    let moved = self.ids[i];
                    self.sparse.set(moved, Some(i));
                }
                self.sparse.set(id, None);
                assert(self@ =~= before.remove(id));
                Some(v)
            },
        }
    }
}

} // verus!
