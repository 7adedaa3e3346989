//! A generic store that maps generational handles to values.

use vstd::prelude::*;
use crate::handle::RawHandle;

verus! {

/// Why an operation on a resource was refused.
#[derive(Clone, Copy, Debug, PartialEq, Eq, Structural)]
pub enum ResourceError {
    /// The handle does not name a slot that can take a value: it was never
    /// issued, was removed, or belongs to an earlier generation of its slot.
    InvalidHandle,
    /// The handle does not name a value that can be read or removed.
    UnknownHandle,
    /// A shared buffer has no room left for the resource.
    ArenaExhausted,
}

/// What a slot currently holds.
pub enum SlotState<T> {
    /// Reclaimed and waiting to be handed out again.
    Vacant,
    /// Handed out by `allocate`, no value yet.
    Reserved,
    /// Handed out and given a value.
    Filled(T),
    /// Removed, waiting for the next sweep; keeps the value it had, if any.
    Condemned(Option<T>),
    /// Its generation counter is used up; never handed out again.
    Retired,
}

/// One entry of a registry.
pub struct Slot<T> {
    pub generation: u64,
    pub state: SlotState<T>,
}

impl<T> Slot<T> {
    /// Handed out and not removed.
    pub open spec fn is_live(self) -> bool {
        self.state is Reserved || self.state is Filled
    }
}

/// `handle` names a slot that was handed out and not removed since.
pub open spec fn is_live<T>(slots: Seq<Slot<T>>, handle: RawHandle) -> bool {
    &&& handle.idx < slots.len()
    &&& slots[handle.idx as int].generation == handle.generation
    &&& slots[handle.idx as int].is_live()
}

/// `handle` is live and its slot has a value.
pub open spec fn is_filled<T>(slots: Seq<Slot<T>>, handle: RawHandle) -> bool {
    &&& is_live(slots, handle)
    &&& slots[handle.idx as int].state is Filled
}

/// `handle` was handed out at some point in the past of `slots`, whether or
/// not it is still live.
pub open spec fn was_issued<T>(slots: Seq<Slot<T>>, handle: RawHandle) -> bool {
    &&& handle.idx < slots.len()
    &&& {
        let slot = slots[handle.idx as int];
        ||| handle.generation < slot.generation
        ||| handle.generation == slot.generation && !(slot.state is Vacant)
    }
}

/// The relation between a registry before and after `allocate` returns
/// `handle`: a vacant slot is reused under its current generation if there is
/// one, otherwise a slot of generation zero is appended.
pub open spec fn allocated<T>(pre: Seq<Slot<T>>, post: Seq<Slot<T>>, handle: RawHandle) -> bool {
    if exists|i: int| 0 <= i < pre.len() && (#[trigger] pre[i]).state is Vacant {
        &&& handle.idx < pre.len()
        &&& pre[handle.idx as int].state is Vacant
        &&& handle.generation == pre[handle.idx as int].generation
        &&& post == pre.update(
            handle.idx as int,
            Slot { generation: handle.generation, state: SlotState::Reserved },
        )
    } else {
        &&& handle.idx == pre.len()
        &&& handle.generation == 0
        &&& post == pre.push(Slot { generation: 0, state: SlotState::Reserved })
    }
}

/// The value a slot carries, if any.
pub open spec fn held_value<T>(slot: Slot<T>) -> Option<T> {
    match slot.state {
        SlotState::Filled(value) => Some(value),
        SlotState::Condemned(value) => value,
        _ => None,
    }
}

/// What a sweep does to one slot: a condemned slot becomes vacant under the
/// next generation, or is retired when its generation counter is used up;
/// every other slot stays as it is.
pub open spec fn sweep_slot<T>(slot: Slot<T>) -> Slot<T> {
    if slot.state is Condemned {
        if slot.generation < u64::MAX {
            Slot { generation: (slot.generation + 1) as u64, state: SlotState::Vacant }
        } else {
            Slot { generation: slot.generation, state: SlotState::Retired }
        }
    } else {
        slot
    }
}

/// The slots after a sweep: each slot swept where it stands.
pub open spec fn swept<T>(slots: Seq<Slot<T>>) -> Seq<Slot<T>> {
    Seq::new(slots.len(), |i: int| sweep_slot(slots[i]))
}

/// The condemned slots in slot order, each as the handle that named it and
/// the value it held.
pub open spec fn condemned_entries<T>(slots: Seq<Slot<T>>) -> Seq<(RawHandle, Option<T>)>
    decreases slots.len(),
{
    if slots.len() == 0 {
        Seq::empty()
    } else {
        let rest = condemned_entries(slots.drop_last());
        match slots.last().state {
            SlotState::Condemned(value) => rest.push(
                (
                    RawHandle {
                        idx: (slots.len() - 1) as usize,
                        generation: slots.last().generation,
                    },
                    value,
                ),
            ),
            _ => rest,
        }
    }
}

/// The values of the filled slots, in slot order.
pub open spec fn live_values<T>(slots: Seq<Slot<T>>) -> Seq<T>
    decreases slots.len(),
{
    if slots.len() == 0 {
        Seq::empty()
    } else {
        let rest = live_values(slots.drop_last());
        match slots.last().state {
            SlotState::Filled(value) => rest.push(value),
            _ => rest,
        }
    }
}

/// `i` occurs in `list`.
pub open spec fn listed(list: Seq<usize>, i: int) -> bool {
    exists|k: int| 0 <= k < list.len() && #[trigger] list[k] == i
}

/// The slots after `insert(handle, value)`: a live handle gets the value,
/// any other handle changes nothing.
pub open spec fn inserted<T>(pre: Seq<Slot<T>>, handle: RawHandle, value: T) -> Seq<Slot<T>> {
    if is_live(pre, handle) {
        pre.update(
            handle.idx as int,
            Slot { generation: handle.generation, state: SlotState::Filled(value) },
        )
    } else {
        pre
    }
}

/// The slots after `remove(handle)`: the slot of a live handle is condemned
/// and keeps its value for the sweep, any other handle changes nothing.
pub open spec fn removed<T>(pre: Seq<Slot<T>>, handle: RawHandle) -> Seq<Slot<T>> {
    if is_live(pre, handle) {
        pre.update(
            handle.idx as int,
            Slot {
                generation: handle.generation,
                state: SlotState::Condemned(held_value(pre[handle.idx as int])),
            },
        )
    } else {
        pre
    }
}

/// Maps handles to values of type `T`. Slots are never moved, so the order of
/// the live values is the order of their slots.
pub struct ResourceRegistry<T> {
    slots: Vec<Slot<T>>,
    vacant: Vec<usize>,
}

impl<T> View for ResourceRegistry<T> {
    type V = Seq<Slot<T>>;

    /// The slots, in order.
    closed spec fn view(&self) -> Seq<Slot<T>> {
        self.slots@
    }
}

impl<T> ResourceRegistry<T> {
    /// The list of vacant slots names each vacant slot exactly once and
    /// nothing else.
    pub closed spec fn wf(&self) -> bool {
        &&& forall|k: int|
            0 <= k < self.vacant@.len() ==> (#[trigger] self.vacant@[k]) < self.slots@.len()
                && self.slots@[self.vacant@[k] as int].state is Vacant
        &&& forall|k: int, l: int|
            0 <= k < l < self.vacant@.len() ==> self.vacant@[k] != self.vacant@[l]
        &&& forall|i: int|
            0 <= i < self.slots@.len() && (#[trigger] self.slots@[i]).state is Vacant
                ==> listed(self.vacant@, i)
    }

    /// The number of slots, vacant ones included.
    pub fn len(&self) -> (len: usize)
        ensures
            len == self@.len(),
    {
        self.slots.len()
    }

    /// A registry has no more slots than a machine word counts.
    pub proof fn lemma_len_fits(&self)
        ensures
            self@.len() <= usize::MAX,
    {
        assert(self.slots.len() == self.slots@.len());
    }

    /// A registry without slots.
    pub fn new() -> (registry: Self)
        ensures
            registry.wf(),
            registry@ == Seq::<Slot<T>>::empty(),
    {
        ResourceRegistry { slots: Vec::new(), vacant: Vec::new() }
    }

    /// Hands out a handle that was never handed out before: that of a vacant
    /// slot if there is one, else that of a new slot.
    pub fn allocate(&mut self) -> (handle: RawHandle)
        requires
            old(self).wf(),
        ensures
            final(self).wf(),
            allocated(old(self)@, final(self)@, handle),
            !was_issued(old(self)@, handle),
            is_live(final(self)@, handle),
    {
        let handle = self.take_slot();
        proof {
            lemma_allocated_is_fresh(old(self)@, self@, handle);
        }
        handle
    }

    fn take_slot(&mut self) -> (handle: RawHandle)
        requires
            old(self).wf(),
        ensures
            final(self).wf(),
            allocated(old(self)@, final(self)@, handle),
    {
        match self.vacant.pop() {
            Some(idx) => {
                assert(old(self).vacant@[old(self).vacant@.len() - 1] == idx);
                let generation = self.slots[idx].generation;
                self.slots[idx] = Slot { generation, state: SlotState::Reserved };
                assert forall|i: int|
                    0 <= i < self.slots@.len() && (#[trigger] self.slots@[i]).state is Vacant
                        implies listed(self.vacant@, i) by {
                    assert(i != idx);
                    assert(old(self).slots@[i].state is Vacant);
                    let k = choose|k: int|
                        0 <= k < old(self).vacant@.len() && #[trigger] old(self).vacant@[k] == i;
                    assert(self.vacant@[k] == i);
                }
                RawHandle { idx, generation }
            },
            None => {
                let idx = self.slots.len();
                self.slots.push(Slot { generation: 0, state: SlotState::Reserved });
                assert forall|i: int| 0 <= i < old(self).slots@.len() implies !((
                #[trigger] old(self).slots@[i]).state is Vacant) by {
                    if old(self).slots@[i].state is Vacant {
                        assert(listed(old(self).vacant@, i));
                    }
                }
                RawHandle { idx, generation: 0 }
            },
        }
    }

    /// Gives `handle` a value, replacing the one it had.
    pub fn insert(&mut self, handle: RawHandle, value: T) -> (r: Result<(), ResourceError>)
        requires
            old(self).wf(),
        ensures
            final(self).wf(),
            final(self)@ == inserted(old(self)@, handle, value),
            r == if is_live(old(self)@, handle) {
                Ok::<(), ResourceError>(())
            } else {
                Err::<(), ResourceError>(ResourceError::InvalidHandle)
            },
    {
        if !self.contains(handle) {
            return Err(ResourceError::InvalidHandle);
        }
        self.slots[handle.idx] = Slot {
            generation: handle.generation,
            state: SlotState::Filled(value),
        };
        assert forall|i: int|
            0 <= i < self.slots@.len() && (#[trigger] self.slots@[i]).state is Vacant
                implies listed(self.vacant@, i) by {
            assert(old(self).slots@[i].state is Vacant);
        }
        Ok(())
    }

    /// Whether `handle` is live.
    pub fn contains(&self, handle: RawHandle) -> (live: bool)
        ensures
            live == is_live(self@, handle),
    {
        if handle.idx >= self.slots.len() {
            return false;
        }
        let slot = &self.slots[handle.idx];
        if slot.generation != handle.generation {
            return false;
        }
        match slot.state {
            SlotState::Reserved => true,
            SlotState::Filled(_) => true,
            _ => false,
        }
    }

    /// The value of `handle`.
    pub fn get(&self, handle: RawHandle) -> (r: Result<&T, ResourceError>)
        ensures
            is_filled(self@, handle) ==> r == Ok::<&T, ResourceError>(
                &self@[handle.idx as int].state->Filled_0,
            ),
            !is_filled(self@, handle) ==> r == Err::<&T, ResourceError>(
                ResourceError::UnknownHandle,
            ),
    {
        if handle.idx >= self.slots.len() {
            return Err(ResourceError::UnknownHandle);
        }
        let slot = &self.slots[handle.idx];
        if slot.generation != handle.generation {
            return Err(ResourceError::UnknownHandle);
        }
        match &slot.state {
            SlotState::Filled(value) => Ok(value),
            _ => Err(ResourceError::UnknownHandle),
        }
    }

    /// The value of `handle`, to be changed in place.
    pub fn get_mut(&mut self, handle: RawHandle) -> (r: Result<&mut T, ResourceError>)
        requires
            old(self).wf(),
        ensures
            final(self).wf(),
            is_filled(old(self)@, handle) ==> r is Ok && *r->Ok_0 == old(
                self,
            )@[handle.idx as int].state->Filled_0 && final(self)@ == inserted(
                old(self)@,
                handle,
                *final(r->Ok_0),
            ),
            !is_filled(old(self)@, handle) ==> r is Err && r->Err_0 == ResourceError::UnknownHandle
                && final(self)@ == old(self)@,
    {
        if handle.idx >= self.slots.len() {
            return Err(ResourceError::UnknownHandle);
        }
        if self.slots[handle.idx].generation != handle.generation {
            return Err(ResourceError::UnknownHandle);
        }
        match &mut self.slots[handle.idx].state {
            SlotState::Filled(value) => Ok(value),
            _ => Err(ResourceError::UnknownHandle),
        }
    }

    /// Marks `handle` as removed. Its slot is reclaimed by the next sweep.
    pub fn remove(&mut self, handle: RawHandle) -> (r: Result<(), ResourceError>)
        requires
            old(self).wf(),
        ensures
            final(self).wf(),
            final(self)@ == removed(old(self)@, handle),
            r == if is_live(old(self)@, handle) {
                Ok::<(), ResourceError>(())
            } else {
                Err::<(), ResourceError>(ResourceError::UnknownHandle)
            },
    {
        if !self.contains(handle) {
            return Err(ResourceError::UnknownHandle);
        }
        let mut state = SlotState::Retired;
        std::mem::swap(&mut self.slots[handle.idx].state, &mut state);
        let condemned = match state {
            SlotState::Filled(value) => SlotState::Condemned(Some(value)),
            _ => SlotState::Condemned(None),
        };
        self.slots[handle.idx].state = condemned;
        assert forall|i: int|
            0 <= i < self.slots@.len() && (#[trigger] self.slots@[i]).state is Vacant
                implies listed(self.vacant@, i) by {
            assert(old(self).slots@[i].state is Vacant);
        }
        assert(self.slots@ =~= removed(old(self)@, handle));
        Ok(())
    }

    /// Reclaims every slot removed since the last sweep and returns, in slot
    /// order, the handle and the value of each. Slots that were not removed
    /// keep their place.
    pub fn remove_all_dead(&mut self) -> (reclaimed: Vec<(RawHandle, Option<T>)>)
        requires
            old(self).wf(),
        ensures
            final(self).wf(),
            final(self)@ == swept(old(self)@),
            reclaimed@ == condemned_entries(old(self)@),
    {
        let mut reclaimed: Vec<(RawHandle, Option<T>)> = Vec::new();
        let count = self.slots.len();
        let mut i: usize = 0;
        assert(old(self)@.take(0) =~= Seq::<Slot<T>>::empty());
        while i < count
            invariant
                i <= count,
                count == self.slots@.len(),
                count == old(self)@.len(),
                self.wf(),
                forall|j: int| 0 <= j < i ==> self.slots@[j] == sweep_slot(old(self)@[j]),
                forall|j: int| i <= j < count ==> self.slots@[j] == old(self)@[j],
                reclaimed@ == condemned_entries(old(self)@.take(i as int)),
            decreases count - i,
        {
            let ghost before = self.slots@;
            let ghost listed_before = self.vacant@;
            assert(old(self)@.take(i as int + 1).drop_last() =~= old(self)@.take(i as int));
            let generation = self.slots[i].generation;
            let is_condemned = match self.slots[i].state {
                SlotState::Condemned(_) => true,
                _ => false,
            };
            if is_condemned {
                let mut state = SlotState::Retired;
                std::mem::swap(&mut self.slots[i].state, &mut state);
                let value = match state {
                    SlotState::Condemned(value) => value,
                    _ => None,
                };
                reclaimed.push((RawHandle { idx: i, generation }, value));
                if generation < u64::MAX {
                    self.slots[i] = Slot { generation: generation + 1, state: SlotState::Vacant };
                    self.vacant.push(i);
                    assert(self.vacant@[listed_before.len() as int] == i);
                }
                assert forall|j: int|
                    0 <= j < self.slots@.len() && (#[trigger] self.slots@[j]).state is Vacant
                        implies listed(self.vacant@, j) by {
                    if j != i {
                        assert(before[j].state is Vacant);
                        let k = choose|k: int|
                            0 <= k < listed_before.len() && #[trigger] listed_before[k] == j;
                        assert(self.vacant@[k] == j);
                    }
                }
            }
            i += 1;
        }
        assert(old(self)@.take(count as int) =~= old(self)@);
        assert(self.slots@ =~= swept(old(self)@));
        reclaimed
    }

    /// A copy of the values of the filled slots, in slot order.
    pub fn values(&self) -> (values: Vec<T>) where T: Copy
        ensures
            values@ == live_values(self@),
    {
        let mut values: Vec<T> = Vec::new();
        let mut i: usize = 0;
        assert(self@.take(0) =~= Seq::<Slot<T>>::empty());
        while i < self.slots.len()
            invariant
                i <= self.slots@.len(),
                values@ == live_values(self@.take(i as int)),
            decreases self.slots@.len() - i,
        {
            assert(self@.take(i as int + 1).drop_last() =~= self@.take(i as int));
            match &self.slots[i].state {
                SlotState::Filled(value) => {
                    values.push(*value);
                },
                _ => {},
            }
            i += 1;
        }
        assert(self@.take(i as int) =~= self@);
        values
    }
}

/// One change to a registry.
pub enum RegistryEvent<T> {
    /// `allocate` returned this handle.
    Allocate(RawHandle),
    /// `insert` was called with this handle and value, or the value of this
    /// handle was changed in place to this value.
    Insert(RawHandle, T),
    /// `remove` was called with this handle.
    Remove(RawHandle),
    /// `remove_all_dead` was called.
    Sweep,
}

/// `post` is what `event` makes of `pre`.
pub open spec fn follows<T>(pre: Seq<Slot<T>>, event: RegistryEvent<T>, post: Seq<Slot<T>>) -> bool {
    match event {
        RegistryEvent::Allocate(handle) => allocated(pre, post, handle),
        RegistryEvent::Insert(handle, value) => post == inserted(pre, handle, value),
        RegistryEvent::Remove(handle) => post == removed(pre, handle),
        RegistryEvent::Sweep => post == swept(pre),
    }
}

/// `states` is a run of a registry: each state follows from the one before
/// by the event between them.
pub open spec fn is_history<T>(states: Seq<Seq<Slot<T>>>, events: Seq<RegistryEvent<T>>) -> bool {
    &&& states.len() == events.len() + 1
    &&& forall|i: int|
        0 <= i < events.len() ==> follows(#[trigger] states[i], events[i], states[i + 1])
}

/// A handle returned by `allocate` was never handed out before, is live
/// afterwards and has no value yet; every other handle is live or filled
/// exactly if it was before.
pub proof fn lemma_allocated_is_fresh<T>(pre: Seq<Slot<T>>, post: Seq<Slot<T>>, handle: RawHandle)
    requires
        allocated(pre, post, handle),
    ensures
        !was_issued(pre, handle),
        is_live(post, handle),
        !is_filled(post, handle),
        forall|other: RawHandle|
            other != handle ==> is_live(post, other) == is_live(pre, other) && is_filled(
                post,
                other,
            ) == is_filled(pre, other),
        live_values(post) == live_values(pre),
{
    if handle.idx < pre.len() {
        lemma_live_values_of_update(
            pre,
            handle.idx as int,
            Slot { generation: handle.generation, state: SlotState::Reserved },
        );
    } else {
        assert(post.drop_last() =~= pre);
    }
}

/// Replacing a slot that holds no live value by another such slot does not
/// change the sequence of live values.
pub proof fn lemma_live_values_of_update<T>(slots: Seq<Slot<T>>, i: int, slot: Slot<T>)
    requires
        0 <= i < slots.len(),
        !(slots[i].state is Filled),
        !(slot.state is Filled),
    ensures
        live_values(slots.update(i, slot)) == live_values(slots),
    decreases slots.len(),
{
    let updated = slots.update(i, slot);
    if i == slots.len() - 1 {
        assert(updated.drop_last() =~= slots.drop_last());
    } else {
        lemma_live_values_of_update(slots.drop_last(), i, slot);
        assert(updated.drop_last() =~= slots.drop_last().update(i, slot));
    }
}

/// No event takes back a handle: what was handed out before an event was
/// handed out after it.
pub proof fn lemma_event_keeps_issued<T>(
    pre: Seq<Slot<T>>,
    event: RegistryEvent<T>,
    post: Seq<Slot<T>>,
    handle: RawHandle,
)
    requires
        follows(pre, event, post),
        was_issued(pre, handle),
    ensures
        was_issued(post, handle),
{
}

/// A handle that was handed out and is no longer live is not brought back
/// to life by any event.
pub proof fn lemma_event_keeps_dead<T>(
    pre: Seq<Slot<T>>,
    event: RegistryEvent<T>,
    post: Seq<Slot<T>>,
    handle: RawHandle,
)
    requires
        follows(pre, event, post),
        was_issued(pre, handle),
        !is_live(pre, handle),
    ensures
        was_issued(post, handle),
        !is_live(post, handle),
{
}

/// Handle uniqueness: in any run of a registry, two calls of `allocate`
/// return different handles, however many removals and sweeps lie between
/// them. In particular no two handles that are live at the same time are
/// equal.
pub proof fn lemma_allocations_distinct<T>(
    states: Seq<Seq<Slot<T>>>,
    events: Seq<RegistryEvent<T>>,
    i: int,
    j: int,
)
    requires
        is_history(states, events),
        0 <= i < j < events.len(),
        events[i] is Allocate,
        events[j] is Allocate,
    ensures
        events[i]->Allocate_0 != events[j]->Allocate_0,
{
    let first = events[i]->Allocate_0;
    assert(follows(states[i], events[i], states[i + 1]));
    lemma_allocated_is_fresh(states[i], states[i + 1], first);
    lemma_issued_stays_issued(states, events, i + 1, j, first);
    assert(follows(states[j], events[j], states[j + 1]));
    lemma_allocated_is_fresh(states[j], states[j + 1], events[j]->Allocate_0);
}

/// In any run of a registry, a handle that was handed out by state `i` was
/// handed out by every later state.
pub proof fn lemma_issued_stays_issued<T>(
    states: Seq<Seq<Slot<T>>>,
    events: Seq<RegistryEvent<T>>,
    i: int,
    j: int,
    handle: RawHandle,
)
    requires
        is_history(states, events),
        0 <= i <= j < states.len(),
        was_issued(states[i], handle),
    ensures
        was_issued(states[j], handle),
    decreases j - i,
{
    if i < j {
        lemma_issued_stays_issued(states, events, i, j - 1, handle);
        assert(follows(states[j - 1], events[j - 1], states[j - 1 + 1]));
        lemma_event_keeps_issued(states[j - 1], events[j - 1], states[j], handle);
    }
}

/// No use after removal: in any run of a registry, a handle that was handed
/// out and is not live in state `i` is not live in any later state, even
/// when its slot has been handed out again.
pub proof fn lemma_dead_stays_dead<T>(
    states: Seq<Seq<Slot<T>>>,
    events: Seq<RegistryEvent<T>>,
    i: int,
    j: int,
    handle: RawHandle,
)
    requires
        is_history(states, events),
        0 <= i <= j < states.len(),
        was_issued(states[i], handle),
        !is_live(states[i], handle),
    ensures
        was_issued(states[j], handle),
        !is_live(states[j], handle),
    decreases j - i,
{
    if i < j {
        lemma_dead_stays_dead(states, events, i, j - 1, handle);
        assert(follows(states[j - 1], events[j - 1], states[j - 1 + 1]));
        lemma_event_keeps_dead(states[j - 1], events[j - 1], states[j], handle);
    }
}

/// Sweeping is idempotent: a second sweep right after a first one reclaims
/// nothing and changes nothing.
pub proof fn lemma_sweep_idempotent<T>(slots: Seq<Slot<T>>)
    ensures
        swept(swept(slots)) == swept(slots),
        condemned_entries(swept(slots)) == Seq::<(RawHandle, Option<T>)>::empty(),
{
    assert(swept(swept(slots)) =~= swept(slots));
    lemma_no_condemned_no_entries(swept(slots));
}

/// Where no slot is condemned, a sweep has nothing to reclaim.
pub proof fn lemma_no_condemned_no_entries<T>(slots: Seq<Slot<T>>)
    requires
        forall|i: int| 0 <= i < slots.len() ==> !((#[trigger] slots[i]).state is Condemned),
    ensures
        condemned_entries(slots) == Seq::<(RawHandle, Option<T>)>::empty(),
    decreases slots.len(),
{
    if slots.len() > 0 {
        lemma_no_condemned_no_entries(slots.drop_last());
    }
}

/// The number of filled slots before slot `i`: the place of the value of
/// slot `i` among the live values.
pub open spec fn rank<T>(slots: Seq<Slot<T>>, i: int) -> int {
    live_values(slots.take(i)).len() as int
}

/// The live values are those of the slots before `i`, then that of slot `i`
/// if it is filled, then those of the slots behind it.
pub proof fn lemma_live_values_split<T>(slots: Seq<Slot<T>>, i: int)
    requires
        0 <= i < slots.len(),
    ensures
        live_values(slots) == live_values(slots.take(i)) + live_values(
            slots.subrange(i, i + 1),
        ) + live_values(slots.skip(i + 1)),
        live_values(slots.subrange(i, i + 1)) == match slots[i].state {
            SlotState::Filled(value) => seq![value],
            _ => Seq::<T>::empty(),
        },
    decreases slots.len(),
{
    let one = slots.subrange(i, i + 1);
    assert(one.drop_last() =~= Seq::<Slot<T>>::empty());
    assert(one.last() == slots[i]);
    assert(live_values(one.drop_last()) =~= Seq::<T>::empty());
    assert(live_values(one) =~= match slots[i].state {
        SlotState::Filled(value) => seq![value],
        _ => Seq::<T>::empty(),
    });
    if i == slots.len() - 1 {
        assert(slots.skip(i + 1) =~= Seq::<Slot<T>>::empty());
        assert(slots.take(i) =~= slots.drop_last());
        assert(live_values(slots) =~= live_values(slots.take(i)) + live_values(one)
            + live_values(slots.skip(i + 1)));
    } else {
        let rest = slots.drop_last();
        lemma_live_values_split(rest, i);
        assert(rest.take(i) =~= slots.take(i));
        assert(rest.subrange(i, i + 1) =~= one);
        assert(slots.skip(i + 1).drop_last() =~= rest.skip(i + 1));
        assert(slots.skip(i + 1).last() == slots.last());
        assert(live_values(slots) =~= live_values(slots.take(i)) + live_values(one)
            + live_values(slots.skip(i + 1)));
    }
}

/// Removing a filled handle takes exactly its value out of the live values
/// and leaves the others in their order; removing any other handle leaves
/// the live values as they are.
pub proof fn lemma_remove_takes_one_value<T>(slots: Seq<Slot<T>>, handle: RawHandle)
    ensures
        is_filled(slots, handle) ==> live_values(removed(slots, handle)) == live_values(
            slots,
        ).remove(rank(slots, handle.idx as int)) && 0 <= rank(slots, handle.idx as int)
            < live_values(slots).len() && live_values(slots)[rank(slots, handle.idx as int)]
            == slots[handle.idx as int].state->Filled_0,
        !is_filled(slots, handle) ==> live_values(removed(slots, handle)) == live_values(slots),
{
    if is_live(slots, handle) {
        let i = handle.idx as int;
        let after = removed(slots, handle);
        lemma_live_values_split(slots, i);
        lemma_live_values_split(after, i);
        assert(after.take(i) =~= slots.take(i));
        assert(after.skip(i + 1) =~= slots.skip(i + 1));
        if is_filled(slots, handle) {
            let before = live_values(slots.take(i));
            let behind = live_values(slots.skip(i + 1));
            let value = slots[i].state->Filled_0;
            assert((before + seq![value] + behind).remove(before.len() as int) =~= before
                + Seq::<T>::empty() + behind);
        }
    }
}

/// Giving a value to a live handle puts the value at the place of its slot
/// among the live values: in place of the value that the handle had, or
/// between the values of the slots around it if it had none.
pub proof fn lemma_insert_places_one_value<T>(slots: Seq<Slot<T>>, handle: RawHandle, value: T)
    requires
        is_live(slots, handle),
    ensures
        is_filled(slots, handle) ==> live_values(inserted(slots, handle, value)) == live_values(
            slots,
        ).update(rank(slots, handle.idx as int), value),
        !is_filled(slots, handle) ==> live_values(inserted(slots, handle, value)) == live_values(
            slots,
        ).insert(rank(slots, handle.idx as int), value),
        0 <= rank(slots, handle.idx as int) <= live_values(slots).len(),
{
    let i = handle.idx as int;
    let after = inserted(slots, handle, value);
    lemma_live_values_split(slots, i);
    lemma_live_values_split(after, i);
    assert(after.take(i) =~= slots.take(i));
    assert(after.skip(i + 1) =~= slots.skip(i + 1));
    let before = live_values(slots.take(i));
    let behind = live_values(slots.skip(i + 1));
    if is_filled(slots, handle) {
        let previous = slots[i].state->Filled_0;
        assert((before + seq![previous] + behind).update(before.len() as int, value) =~= before
            + seq![value] + behind);
    } else {
        assert((before + Seq::<T>::empty() + behind).insert(before.len() as int, value) =~= before
            + seq![value] + behind);
    }
}

/// Each entry that a sweep returns stands for one condemned slot: its handle
/// names the slot, its value is what the slot held, and the entries come in
/// slot order.
pub proof fn lemma_condemned_entries<T>(slots: Seq<Slot<T>>)
    requires
        slots.len() <= usize::MAX,
    ensures
        forall|k: int|
            0 <= k < condemned_entries(slots).len() ==> {
                let entry = #[trigger] condemned_entries(slots)[k];
                &&& entry.0.idx < slots.len()
                &&& slots[entry.0.idx as int].state == SlotState::Condemned(entry.1)
                &&& slots[entry.0.idx as int].generation == entry.0.generation
            },
        forall|k: int, l: int|
            0 <= k < l < condemned_entries(slots).len() ==> (#[trigger] condemned_entries(
                slots,
            )[k]).0.idx < (#[trigger] condemned_entries(slots)[l]).0.idx,
    decreases slots.len(),
{
    if slots.len() > 0 {
        lemma_condemned_entries(slots.drop_last());
    }
}

/// A sweep keeps every live slot where it is: the same handles are live and
/// filled, and the live values come in the same order.
pub proof fn lemma_sweep_keeps_live<T>(slots: Seq<Slot<T>>)
    ensures
        forall|handle: RawHandle| is_live(swept(slots), handle) == is_live(slots, handle),
        forall|handle: RawHandle| is_filled(swept(slots), handle) == is_filled(slots, handle),
        live_values(swept(slots)) == live_values(slots),
    decreases slots.len(),
{
    if slots.len() > 0 {
        lemma_sweep_keeps_live(slots.drop_last());
        assert(swept(slots).drop_last() =~= swept(slots.drop_last()));
    }
}

} // verus!
