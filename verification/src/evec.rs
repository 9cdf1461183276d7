//! A slot arena: a growable container that hands out small integer handles,
//! keeps them stable while their element lives, and reuses the handle of a
//! removed element for a later one.

use vstd::prelude::*;

verus! {

/// A handle that knows which tenant of its slot it was issued for: the
/// index of the slot, and the generation that the slot had then.
#[derive(Copy, Clone, Debug, PartialEq, Eq, Structural)]
pub struct Handle {
    pub index: usize,
    pub generation: u32,
}

/// The generation that follows `generation`. After the last one the count
/// starts again.
pub open spec fn next_generation(generation: u32) -> u32 {
    if generation == u32::MAX {
        0
    } else {
        (generation + 1) as u32
    }
}

/// What an arena holds, as mathematics: its slots in order, the stack of
/// slot indices that are free to be reused (the last one is reused first),
/// and for each slot its generation: how often it has been emptied.
pub struct EvecView<T> {
    pub slots: Seq<Option<T>>,
    pub free: Seq<usize>,
    pub generations: Seq<u32>,
}

impl<T> EvecView<T> {
    /// The free stack lists exactly the empty slots, each once, and every
    /// slot has a generation.
    pub open spec fn wf(self) -> bool {
        &&& self.generations.len() == self.slots.len()
        &&& self.free.no_duplicates()
        &&& forall|k: int|
            0 <= k < self.free.len() ==> 0 <= #[trigger] self.free[k] < self.slots.len()
                && self.slots[self.free[k] as int] is None
        &&& forall|i: int|
            0 <= i < self.slots.len() && (#[trigger] self.slots[i]) is None ==> self.is_free(i)
    }

    /// Whether `index` is on the free stack.
    pub open spec fn is_free(self, index: int) -> bool {
        exists|k: int| 0 <= k < self.free.len() && #[trigger] self.free[k] as int == index
    }

    /// Whether `index` names a slot that holds an element.
    pub open spec fn is_live(self, index: int) -> bool {
        0 <= index < self.slots.len() && self.slots[index] is Some
    }

    /// The handles that are valid at this moment.
    pub open spec fn live_set(self) -> Set<int> {
        Set::new(|i: int| self.is_live(i))
    }

    /// How many elements the arena holds.
    pub open spec fn live_count(self) -> nat {
        self.live_set().len()
    }

    /// The handle that the next `push` returns.
    pub open spec fn next_available(self) -> int {
        if self.free.len() > 0 {
            self.free.last() as int
        } else {
            self.slots.len() as int
        }
    }

    /// The arena after `value` has been stored under `next_available()`.
    pub open spec fn push(self, value: T) -> EvecView<T> {
        if self.free.len() > 0 {
            EvecView {
                slots: self.slots.update(self.free.last() as int, Some(value)),
                free: self.free.drop_last(),
                generations: self.generations,
            }
        } else {
            EvecView {
                slots: self.slots.push(Some(value)),
                free: self.free,
                generations: self.generations.push(0),
            }
        }
    }

    /// The arena after the slot `index` has been emptied, which takes the
    /// slot to its next generation. Emptying an empty slot, or one that
    /// does not exist, changes nothing.
    pub open spec fn remove(self, index: usize) -> EvecView<T> {
        if self.is_live(index as int) {
            EvecView {
                slots: self.slots.update(index as int, None),
                free: self.free.push(index),
                generations: self.generations.update(
                    index as int,
                    next_generation(self.generations[index as int]),
                ),
            }
        } else {
            self
        }
    }

    /// The arena after the element in the live slot `index` has been replaced.
    pub open spec fn replace(self, index: int, value: T) -> EvecView<T> {
        EvecView { slots: self.slots.update(index, Some(value)), ..self }
    }

    /// The handle of the element that the live slot `index` holds now.
    pub open spec fn handle_of(self, index: usize) -> Handle {
        Handle { index, generation: self.generations[index as int] }
    }

    /// Whether `handle` still names the element it was issued for: its slot
    /// is live and in the generation of the handle.
    pub open spec fn is_current(self, handle: Handle) -> bool {
        self.is_live(handle.index as int) && self.generations[handle.index as int]
            == handle.generation
    }

    /// The arena after its empty slots have been squeezed out. The elements
    /// keep their order and lose their handles; every slot starts again at
    /// generation 0.
    pub open spec fn compact(self) -> EvecView<T> {
        let slots = self.slots.filter(live_slot::<T>());
        EvecView { slots, free: Seq::empty(), generations: Seq::new(slots.len(), |i: int| 0u32) }
    }

    /// A push keeps the arena well formed, returns a handle that no live
    /// element has, and leaves every live element where it was: the live
    /// handles are the old ones and the new one.
    pub proof fn lemma_push_gives_fresh_handle(self, value: T)
        requires
            self.wf(),
        ensures
            self.push(value).wf(),
            !self.is_live(self.next_available()),
            self.push(value).slots[self.next_available()] == Some(value),
            self.push(value).live_set() == self.live_set().insert(self.next_available()),
            forall|i: int| self.is_live(i) ==> self.push(value).slots[i] == self.slots[i],
            self.slots.len() <= self.push(value).slots.len() <= self.slots.len() + 1,
    {
        let after = self.push(value);
        let next = self.next_available();
        if self.free.len() > 0 {
            let top = self.free.len() - 1;
            assert(self.free[top] == next);
            assert forall|i: int|
                0 <= i < after.slots.len() && (#[trigger] after.slots[i]) is None implies after.is_free(
                i,
            ) by {
                assert(self.slots[i] is None);
                let k = choose|k: int| 0 <= k < self.free.len() && self.free[k] as int == i;
                assert(k != top);
                assert(after.free[k] as int == i);
            }
        }
        assert(after.live_set() =~= self.live_set().insert(next));
    }

    /// Emptying a slot keeps the arena well formed and takes exactly that
    /// handle out of the live ones.
    pub proof fn lemma_remove_frees_one_handle(self, index: usize)
        requires
            self.wf(),
        ensures
            self.remove(index).wf(),
            self.remove(index).live_set() == self.live_set().remove(index as int),
            self.remove(index).slots.len() == self.slots.len(),
            forall|i: int|
                0 <= i < self.slots.len() && i != index ==> self.remove(index).slots[i]
                    == self.slots[i],
    {
        let after = self.remove(index);
        if self.is_live(index as int) {
            let top = self.free.len() as int;
            assert(after.free[top] == index);
            assert forall|i: int|
                0 <= i < after.slots.len() && (#[trigger] after.slots[i]) is None implies after.is_free(
                i,
            ) by {
                if i != index {
                    let k = choose|k: int| 0 <= k < self.free.len() && self.free[k] as int == i;
                    assert(after.free[k] as int == i);
                }
            }
            assert forall|j: int, k: int|
                0 <= j < after.free.len() && 0 <= k < after.free.len() && j != k implies after.free[j]
                != after.free[k] by {
                if j < top && k < top {
                } else if j < top {
                    assert(self.slots[self.free[j] as int] is None);
                } else {
                    assert(self.slots[self.free[k] as int] is None);
                }
            }
        }
        assert(after.live_set() =~= self.live_set().remove(index as int));
    }

    /// Removing the same handle a second time has no effect at all.
    pub proof fn lemma_remove_idempotent(self, index: usize)
        ensures
            self.remove(index).remove(index) == self.remove(index),
    {
    }

    /// A handle does not outlive its element: once the slot has been
    /// emptied the handle is rejected, also after the slot has been given
    /// to the next element. Handles of other slots are not touched by
    /// either step.
    pub proof fn lemma_stale_handle_rejected(self, handle: Handle, value: T)
        requires
            self.wf(),
            self.is_current(handle),
        ensures
            !self.remove(handle.index).is_current(handle),
            !self.remove(handle.index).push(value).is_current(handle),
            forall|other: Handle|
                self.is_current(other) && other.index != handle.index ==> self.remove(
                    handle.index,
                ).is_current(other) && self.remove(handle.index).push(value).is_current(other),
    {
        self.lemma_remove_frees_one_handle(handle.index);
        self.remove(handle.index).lemma_push_gives_fresh_handle(value);
    }

    /// A push leaves every handle that is current as it is.
    pub proof fn lemma_push_keeps_handles(self, value: T, handle: Handle)
        requires
            self.wf(),
            self.is_current(handle),
        ensures
            self.push(value).is_current(handle),
    {
        self.lemma_push_gives_fresh_handle(value);
    }

    /// Replacing the element of a live slot changes neither the free stack
    /// nor the set of live handles.
    pub proof fn lemma_replace_keeps_handles(self, index: int, value: T)
        requires
            self.wf(),
            self.is_live(index),
        ensures
            self.replace(index, value).wf(),
            self.replace(index, value).live_set() == self.live_set(),
    {
        let after = self.replace(index, value);
        assert forall|i: int|
            0 <= i < after.slots.len() && (#[trigger] after.slots[i]) is None implies after.is_free(
            i,
        ) by {
            assert(self.slots[i] is None);
            let k = choose|k: int| 0 <= k < self.free.len() && self.free[k] as int == i;
            assert(after.free[k] as int == i);
        }
        assert(after.live_set() =~= self.live_set());
    }

    /// A compacted arena has no empty slot and no free handle.
    pub proof fn lemma_compact_is_dense(self)
        ensures
            self.compact().wf(),
            forall|i: int| 0 <= i < self.compact().slots.len() ==> self.compact().is_live(i),
            self.compact().slots.len() <= self.slots.len(),
    {
        let pred = live_slot::<T>();
        self.slots.lemma_filter_len(pred);
        assert forall|i: int| 0 <= i < self.compact().slots.len() implies self.compact().is_live(
            i,
        ) by {
            self.slots.lemma_filter_pred(pred, i);
        }
    }
}

/// The test that a slot holds an element.
pub open spec fn live_slot<T>() -> spec_fn(Option<T>) -> bool {
    |s: Option<T>| s is Some
}

/// The arena: optional slots, the stack of indices whose slot is empty,
/// and the generation of each slot.
#[derive(Debug)]
pub struct Evec<T> {
    pub values: Vec<Option<T>>,
    pub available: Vec<usize>,
    pub generations: Vec<u32>,
}

impl<T: Clone> Clone for Evec<T> {
    /// An arena with the same free stack and generations, and with clones
    /// of the elements in the same slots.
    fn clone(&self) -> (r: Self)
        ensures
            r@.free == self@.free,
            r@.generations == self@.generations,
            r@.slots.len() == self@.slots.len(),
    {
        Evec {
            values: self.values.clone(),
            available: self.available.clone(),
            generations: self.generations.clone(),
        }
    }
}

impl<T> View for Evec<T> {
    type V = EvecView<T>;

    open spec fn view(&self) -> EvecView<T> {
        EvecView {
            slots: self.values@,
            free: self.available@,
            generations: self.generations@,
        }
    }
}

/// The indices below `upto` whose slot in `slots` is empty, in rising order.
pub open spec fn empty_indices<T>(slots: Seq<Option<T>>, upto: int) -> Seq<usize>
    decreases upto,
{
    if upto <= 0 {
        Seq::empty()
    } else if slots[upto - 1] is None {
        empty_indices(slots, upto - 1).push((upto - 1) as usize)
    } else {
        empty_indices(slots, upto - 1)
    }
}

/// `empty_indices` lists exactly the empty slots below `upto`, each once.
pub proof fn lemma_empty_indices<T>(slots: Seq<Option<T>>, upto: int)
    requires
        0 <= upto <= slots.len(),
        slots.len() <= usize::MAX,
    ensures
        empty_indices(slots, upto).no_duplicates(),
        forall|k: int|
            0 <= k < empty_indices(slots, upto).len() ==> 0 <= #[trigger] empty_indices(
                slots,
                upto,
            )[k] < upto && slots[empty_indices(slots, upto)[k] as int] is None,
        forall|i: int|
            0 <= i < upto && (#[trigger] slots[i]) is None ==> exists|k: int|
                0 <= k < empty_indices(slots, upto).len() && #[trigger] empty_indices(
                    slots,
                    upto,
                )[k] as int == i,
    decreases upto,
{
    if upto > 0 {
        lemma_empty_indices(slots, upto - 1);
        let before = empty_indices(slots, upto - 1);
        let now = empty_indices(slots, upto);
        if slots[upto - 1] is None {
            assert(now[before.len() as int] == (upto - 1) as usize);
            assert forall|i: int| 0 <= i < upto && (#[trigger] slots[i]) is None implies exists|k: int|
                0 <= k < now.len() && #[trigger] now[k] as int == i by {
                if i < upto - 1 {
                    let k = choose|k: int| 0 <= k < before.len() && before[k] as int == i;
                    assert(now[k] as int == i);
                }
            }
        }
    }
}

impl<T> Evec<T> {
    /// Well-formedness of the arena itself: that of its content.
    pub open spec fn wf(&self) -> bool {
        self@.wf()
    }

    /// An empty arena.
    pub fn new() -> (r: Evec<T>)
        ensures
            r@.slots == Seq::<Option<T>>::empty(),
            r@.free == Seq::<usize>::empty(),
            r@.generations == Seq::<u32>::empty(),
            r.wf(),
    {
        Evec { values: Vec::new(), available: Vec::new(), generations: Vec::new() }
    }

    /// An arena whose slots hold the elements of `vec`, in order: element `i`
    /// has handle `i`.
    pub fn from(vec: Vec<T>) -> (r: Evec<T>)
        ensures
            r@.slots == vec@.map_values(|v: T| Some(v)),
            r@.free == Seq::<usize>::empty(),
            r@.generations == Seq::new(vec@.len(), |i: int| 0u32),
            r.wf(),
    {
        let capacity = vec.len();
        let mut values: Vec<Option<T>> = Vec::with_capacity(capacity);
        let mut generations: Vec<u32> = Vec::with_capacity(capacity);
        let ghost all = vec@;
        for value in it: vec
            invariant
                it.seq() == all,
                values@ == all.take(it.index() as int).map_values(|v: T| Some(v)),
                generations@ == Seq::new(it.index() as nat, |i: int| 0u32),
        {
            values.push(Some(value));
            generations.push(0);
            assert(values@ =~= all.take(it.index() + 1).map_values(|v: T| Some(v)));
            assert(generations@ =~= Seq::new((it.index() + 1) as nat, |i: int| 0u32));
        }
        assert(all.take(all.len() as int) =~= all);
        Evec { values, available: Vec::with_capacity(capacity), generations }
    }

    /// An arena with the given slots. Its empty slots are free, the highest
    /// one being the first to be reused.
    pub fn from_option_vec(vec: Vec<Option<T>>) -> (r: Evec<T>)
        ensures
            r@.slots == vec@,
            r@.free == empty_indices(vec@, vec@.len() as int),
            r@.generations == Seq::new(vec@.len(), |i: int| 0u32),
            r.wf(),
    {
        let mut available: Vec<usize> = Vec::with_capacity(vec.len());
        let mut generations: Vec<u32> = Vec::with_capacity(vec.len());
        let n = vec.len();
        let mut i: usize = 0;
        while i < n
            invariant
                n == vec@.len(),
                0 <= i <= n,
                available@ == empty_indices(vec@, i as int),
                generations@ == Seq::new(i as nat, |k: int| 0u32),
            decreases n - i,
        {
            if vec[i].is_none() {
                available.push(i);
            }
            generations.push(0);
            assert(generations@ =~= Seq::new((i + 1) as nat, |k: int| 0u32));
            i = i + 1;
        }
        proof {
            lemma_empty_indices(vec@, n as int);
        }
        Evec { values: vec, available, generations }
    }

    /// The handle that the next `push` will return. Nothing changes.
    pub fn next_available(&self) -> (index: usize)
        ensures
            index == self@.next_available(),
    {
        let n = self.available.len();
        if n > 0 {
            self.available[n - 1]
        } else {
            self.values.len()
        }
    }

    /// An empty arena with room set aside for `capacity` elements.
    pub fn with_capacity(capacity: usize) -> (r: Evec<T>)
        ensures
            r@.slots == Seq::<Option<T>>::empty(),
            r@.free == Seq::<usize>::empty(),
            r@.generations == Seq::<u32>::empty(),
            r.wf(),
    {
        Evec {
            values: Vec::with_capacity(capacity),
            available: Vec::with_capacity(capacity),
            generations: Vec::with_capacity(capacity),
        }
    }

    /// Stores `value` and returns its handle: the slot freed last if there is
    /// one, else a new slot at the end.
    pub fn push(&mut self, value: T) -> (index: usize)
        requires
            old(self)@.free.len() > 0 ==> old(self)@.free.last() < old(self)@.slots.len(),
        ensures
            index == old(self)@.next_available(),
            final(self)@ == old(self)@.push(value),
            final(self)@.slots[index as int] == Some(value),
            old(self).wf() ==> final(self).wf() && !old(self)@.is_live(index as int),
            old(self).wf() ==> forall|i: int|
                old(self)@.is_live(i) ==> final(self)@.slots[i] == old(self)@.slots[i],
    {
        proof {
            if self.wf() {
                self@.lemma_push_gives_fresh_handle(value);
            }
        }
        match self.available.pop() {
            Some(index) => {
                self.values[index] = Some(value);
                index
            },
            None => {
                let index = self.values.len();
                self.values.push(Some(value));
                self.generations.push(0);
                index
            },
        }
    }

    /// Empties the slot `index` and frees its handle. On a slot that is
    /// already empty nothing happens.
    pub fn remove(&mut self, index: usize)
        requires
            index < old(self)@.slots.len(),
            old(self)@.generations.len() == old(self)@.slots.len(),
        ensures
            final(self)@ == old(self)@.remove(index),
            old(self).wf() ==> final(self).wf(),
    {
        proof {
            if self.wf() {
                self@.lemma_remove_frees_one_handle(index);
            }
        }
        if self.values[index].is_some() {
            self.values[index] = None;
            self.available.push(index);
            let generation = self.generations[index];
            self.generations[index] = if generation == u32::MAX {
                0
            } else {
                generation + 1
            };
        }
    }

    /// Squeezes the empty slots out. Every handle issued before is void
    /// afterwards: the elements are renumbered from zero in their order.
    pub fn remove_unused(&mut self)
        ensures
            final(self)@ == old(self)@.compact(),
            final(self).wf(),
    {
        self.available.clear();
        self.generations.clear();
        let mut values: Vec<Option<T>> = Vec::with_capacity(self.values.len());
        core::mem::swap(&mut self.values, &mut values);
        let ghost all = values@;
        let ghost pred = live_slot::<T>();
        for item in it: values
            invariant
                it.seq() == all,
                pred == live_slot::<T>(),
                self.values@ == all.take(it.index() as int).filter(pred),
                self.available@ == Seq::<usize>::empty(),
                self.generations@ == Seq::new(self.values@.len(), |i: int| 0u32),
        {
            proof {
                let k = it.index() as int;
                assert(all.take(k + 1) =~= all.take(k).push(all[k]));
                lemma_filter_push(all.take(k), all[k], pred);
            }
            if item.is_some() {
                self.values.push(item);
                self.generations.push(0);
                assert(self.generations@ =~= Seq::new(self.values@.len(), |i: int| 0u32));
            }
        }
        proof {
            assert(all.take(all.len() as int) =~= all);
            old(self)@.lemma_compact_is_dense();
        }
    }

    /// The element under `index`, or `None` where the slot is empty or does
    /// not exist: the way to learn that a handle is stale.
    pub fn get(&self, index: usize) -> (r: Option<&T>)
        ensures
            match r {
                Some(value) => self@.is_live(index as int) && self@.slots[index as int] == Some(
                    *value,
                ),
                None => !self@.is_live(index as int),
            },
    {
        if index < self.values.len() {
            self.values[index].as_ref()
        } else {
            None
        }
    }

    /// The element under `index`, to be changed in place, or `None` where the
    /// slot is empty or does not exist. Nothing else in the arena changes.
    pub fn get_mut(&mut self, index: usize) -> (r: Option<&mut T>)
        ensures
            final(self)@.free == old(self)@.free,
            final(self)@.generations == old(self)@.generations,
            match r {
                Some(value) => old(self)@.is_live(index as int) && old(self)@.slots[index as int]
                    == Some(*value) && final(self)@.slots =~= old(self)@.slots.update(
                    index as int,
                    Some(*final(value)),
                ),
                None => !old(self)@.is_live(index as int) && final(self)@.slots =~= old(
                    self,
                )@.slots,
            },
    {
        if index < self.values.len() {
            self.values[index].as_mut()
        } else {
            None
        }
    }

    /// The handle of the element under `index`, as long as that element
    /// stays; `None` where the slot is empty or does not exist.
    pub fn handle(&self, index: usize) -> (r: Option<Handle>)
        requires
            self.wf(),
        ensures
            r == if self@.is_live(index as int) {
                Some(self@.handle_of(index))
            } else {
                None
            },
    {
        if index < self.values.len() && self.values[index].is_some() {
            Some(Handle { index, generation: self.generations[index] })
        } else {
            None
        }
    }

    /// The element that `handle` was issued for, or `None` where that
    /// element is gone, whether or not another has taken its slot.
    pub fn get_checked(&self, handle: Handle) -> (r: Option<&T>)
        requires
            self.wf(),
        ensures
            match r {
                Some(value) => self@.is_current(handle) && self@.slots[handle.index as int]
                    == Some(*value),
                None => !self@.is_current(handle),
            },
    {
        if handle.index < self.values.len() && self.generations[handle.index]
            == handle.generation {
            self.values[handle.index].as_ref()
        } else {
            None
        }
    }

    /// Puts `value` in place of the element that the live slot `index` holds.
    /// The handle stays as it is.
    pub fn replace(&mut self, index: usize, value: T)
        requires
            old(self)@.is_live(index as int),
        ensures
            final(self)@ == old(self)@.replace(index as int, value),
            old(self).wf() ==> final(self).wf(),
    {
        proof {
            if self.wf() {
                self@.lemma_replace_keeps_handles(index as int, value);
            }
        }
        self.values[index] = Some(value);
    }
}

/// Filtering a sequence with one more element at its end.
pub proof fn lemma_filter_push<A>(s: Seq<A>, last: A, pred: spec_fn(A) -> bool)
    ensures
        s.push(last).filter(pred) == if pred(last) {
            s.filter(pred).push(last)
        } else {
            s.filter(pred)
        },
{
    reveal(Seq::filter);
    assert(s.push(last).drop_last() =~= s);
}

impl<T> vstd::std_specs::core::IndexSpecImpl<usize> for Evec<T> {
    open spec fn index_req(&self, index: &usize) -> bool {
        *index < self@.slots.len()
    }
}

impl<T> core::ops::Index<usize> for Evec<T> {
    type Output = Option<T>;

    /// The slot `index` itself, empty or not.
    fn index(&self, index: usize) -> (r: &Option<T>)
        ensures
            *r == self@.slots[index as int],
    {
        &self.values[index]
    }
}

} // verus!

