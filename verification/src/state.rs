//! Cross-frame typed state.
//!
//! The element tree is rebuilt from scratch every frame; the only thing that
//! survives a frame boundary is this cache. Identity is positional: the
//! `k`-th `new_state` call of a frame yields the slot `(frame, k)`, so an
//! element that repeats its calls in the same order each frame addresses the
//! same slots. The previous frame's cache is read-only input; the frame
//! driver writes the next frame's cache using the handles the elements
//! allocated.
//!
//! Values are stored as a tagged union (`StateValue`); the typed surface
//! `State<T>`/`StateT` injects plain values into it and checks the kind on
//! the way out. A read of a slot never written yields the type's default.

use vstd::prelude::*;
use crate::error::UiError;

verus! {

/// Positional identity of one persisted state slot: the frame that allocated
/// it plus a per-frame counter.
#[derive(Copy, Clone, Debug, PartialEq, Eq, Hash, Structural)]
pub struct StateId {
    pub frame_id: u64,
    pub slot: u32,
}

impl StateId {
    pub fn new(frame_id: u64, slot: u32) -> (id: StateId)
        ensures
            id == (StateId { frame_id, slot }),
    {
        StateId { frame_id, slot }
    }

    /// Hand out the current slot and advance the counter by one.
    pub fn increment(&mut self) -> (id: StateId)
        requires
            old(self).slot < u32::MAX,
        ensures
            id == *old(self),
            *final(self) == (StateId { frame_id: old(self).frame_id, slot: (old(self).slot + 1) as u32 }),
    {
        let id = StateId { frame_id: self.frame_id, slot: self.slot };
        self.slot = self.slot + 1;
        id
    }
}

/// The tagged union a state slot stores. The read path checks the kind and
/// refuses to coerce between variants.
#[derive(Copy, Clone, Debug, PartialEq, Eq, Structural)]
pub enum StateValue {
    Unsigned(u64),
    Signed(i64),
    Flag(bool),
}

/// A plain value that can live in a state slot.
pub trait StateT: Sized {
    /// The tagged representation of this value.
    spec fn value_of(self) -> StateValue;

    /// Whether a stored value has this type's kind.
    spec fn fits(v: StateValue) -> bool;

    /// The value a never-written slot reads as.
    spec fn default_spec() -> Self;

    proof fn lemma_value_fits(self)
        ensures
            Self::fits(self.value_of()),
    ;

    fn to_value(self) -> (v: StateValue)
        ensures
            v == self.value_of(),
    ;

    fn of_value(v: StateValue) -> (r: Self)
        requires
            Self::fits(v),
        ensures
            r.value_of() == v,
    ;

    fn fits_value(v: &StateValue) -> (b: bool)
        ensures
            b == Self::fits(*v),
    ;

    fn default_value() -> (r: Self)
        ensures
            r == Self::default_spec(),
    ;
}

impl StateT for u64 {
    open spec fn value_of(self) -> StateValue {
        StateValue::Unsigned(self)
    }

    open spec fn fits(v: StateValue) -> bool {
        v is Unsigned
    }

    open spec fn default_spec() -> u64 {
        0u64
    }

    proof fn lemma_value_fits(self) {
    }

    fn to_value(self) -> StateValue {
        StateValue::Unsigned(self)
    }

    fn of_value(v: StateValue) -> u64 {
        match v {
            StateValue::Unsigned(x) => x,
            _ => 0,
        }
    }

    fn fits_value(v: &StateValue) -> bool {
        match v {
            StateValue::Unsigned(_) => true,
            _ => false,
        }
    }

    fn default_value() -> u64 {
        0
    }
}

impl StateT for i64 {
    open spec fn value_of(self) -> StateValue {
        StateValue::Signed(self)
    }

    open spec fn fits(v: StateValue) -> bool {
        v is Signed
    }

    open spec fn default_spec() -> i64 {
        0i64
    }

    proof fn lemma_value_fits(self) {
    }

    fn to_value(self) -> StateValue {
        StateValue::Signed(self)
    }

    fn of_value(v: StateValue) -> i64 {
        match v {
            StateValue::Signed(x) => x,
            _ => 0,
        }
    }

    fn fits_value(v: &StateValue) -> bool {
        match v {
            StateValue::Signed(_) => true,
            _ => false,
        }
    }

    fn default_value() -> i64 {
        0
    }
}

impl StateT for bool {
    open spec fn value_of(self) -> StateValue {
        StateValue::Flag(self)
    }

    open spec fn fits(v: StateValue) -> bool {
        v is Flag
    }

    open spec fn default_spec() -> bool {
        false
    }

    proof fn lemma_value_fits(self) {
    }

    fn to_value(self) -> StateValue {
        StateValue::Flag(self)
    }

    fn of_value(v: StateValue) -> bool {
        match v {
            StateValue::Flag(x) => x,
            _ => false,
        }
    }

    fn fits_value(v: &StateValue) -> bool {
        match v {
            StateValue::Flag(_) => true,
            _ => false,
        }
    }

    fn default_value() -> bool {
        false
    }
}

/// A typed handle to one state slot, to be read next frame. It carries no
/// storage itself; the phantom parameter fixes the type the slot is read at.
pub struct State<T> {
    pub id: StateId,
    pub marker: core::marker::PhantomData<T>,
}

impl<T> State<T> {
    pub fn new(id: StateId) -> (s: State<T>)
        ensures
            s.id == id,
    {
        State { id, marker: core::marker::PhantomData }
    }
}

impl<T> Clone for State<T> {
    fn clone(&self) -> (r: Self)
        ensures
            r.id == self.id,
    {
        State { id: self.id, marker: core::marker::PhantomData }
    }
}

struct CacheEntry {
    id: StateId,
    value: StateValue,
}

/// Durable storage for one frame's state values: a map from slot identity to
/// a tagged value. Kept as an insertion list; a later insert for the same
/// slot shadows an earlier one.
pub struct StateCache {
    entries: Vec<CacheEntry>,
}

spec fn entries_map(s: Seq<CacheEntry>) -> Map<StateId, StateValue>
    decreases s,
{
    if s.len() == 0 {
        Map::empty()
    } else {
        entries_map(s.drop_last()).insert(s.last().id, s.last().value)
    }
}

impl View for StateCache {
    type V = Map<StateId, StateValue>;

    closed spec fn view(&self) -> Map<StateId, StateValue> {
        entries_map(self.entries@)
    }
}

impl StateCache {
    pub fn new() -> (c: StateCache)
        ensures
            c@ == Map::<StateId, StateValue>::empty(),
    {
        StateCache { entries: Vec::new() }
    }

    /// Store a raw tagged value at a slot, shadowing any earlier value.
    pub fn insert(&mut self, id: StateId, value: StateValue)
        ensures
            final(self)@ == old(self)@.insert(id, value),
    {
        self.entries.push(CacheEntry { id, value });
        proof {
            assert(self.entries@.drop_last() == old(self).entries@);
        }
    }

    /// Store a typed value at a slot. This is the cache-writing side used by
    /// the frame driver with the handles the elements allocated.
    pub fn write<T: StateT>(&mut self, id: StateId, value: T)
        ensures
            final(self)@ == old(self)@.insert(id, value.value_of()),
    {
        let v = value.to_value();
        self.insert(id, v);
    }

    /// Look up the tagged value stored at a slot, if any.
    pub fn get(&self, id: StateId) -> (r: Option<StateValue>)
        ensures
            r == (if self@.contains_key(id) {
                Some(self@[id])
            } else {
                None::<StateValue>
            }),
    {
        let mut i: usize = self.entries.len();
        proof {
            assert(self.entries@.take(i as int) =~= self.entries@);
        }
        while i > 0
            invariant
                i <= self.entries.len(),
                entries_map(self.entries@).contains_key(id)
                    == entries_map(self.entries@.take(i as int)).contains_key(id),
                entries_map(self.entries@).contains_key(id) ==> entries_map(
                    self.entries@.take(i as int),
                )[id] == entries_map(self.entries@)[id],
            decreases i,
        {
            i = i - 1;
            proof {
                assert(self.entries@.take(i + 1).drop_last() =~= self.entries@.take(i as int));
                assert(self.entries@.take(i + 1).last() == self.entries@[i as int]);
            }
            if self.entries[i].id == id {
                return Some(self.entries[i].value);
            }
        }
        proof {
            assert(self.entries@.take(0) =~= Seq::<CacheEntry>::empty());
        }
        None
    }
}

/// Read a typed slot against the previous frame's cache.
///
/// The handle must have been allocated in exactly the frame before the one
/// now being built (`next_frame_id`), and a stored value must have the
/// requested kind; a slot never written reads as the type's default.
pub fn read_cached<T: StateT>(cache: &StateCache, next_frame_id: u64, state: &State<T>) -> (r: T)
    requires
        state.id.frame_id + 1 == next_frame_id,
        cache@.contains_key(state.id) ==> T::fits(cache@[state.id]),
    ensures
        cache@.contains_key(state.id) ==> r.value_of() == cache@[state.id],
        !cache@.contains_key(state.id) ==> r == T::default_spec(),
{
    match cache.get(state.id) {
        Some(v) => T::of_value(v),
        None => T::default_value(),
    }
}

/// Read a typed slot, reporting the frame-skew and kind-mismatch violations
/// as values instead of excluding them by precondition.
pub fn try_read_cached<T: StateT>(
    cache: &StateCache,
    next_frame_id: u64,
    state: &State<T>,
) -> (r: Result<T, UiError>)
    ensures
        state.id.frame_id + 1 != next_frame_id ==> r == Err::<T, UiError>(UiError::WrongFrameRead),
        state.id.frame_id + 1 == next_frame_id && cache@.contains_key(state.id)
            && !T::fits(cache@[state.id]) ==> r == Err::<T, UiError>(UiError::StateTypeMismatch),
        state.id.frame_id + 1 == next_frame_id && cache@.contains_key(state.id)
            && T::fits(cache@[state.id]) ==> (r matches Ok(v) && v.value_of() == cache@[state.id]),
        state.id.frame_id + 1 == next_frame_id && !cache@.contains_key(state.id) ==> (
        r matches Ok(v) && v == T::default_spec()),
{
    if !(next_frame_id >= 1 && state.id.frame_id == next_frame_id - 1) {
        return Err(UiError::WrongFrameRead);
    }
    match cache.get(state.id) {
        Some(v) => {
            if T::fits_value(&v) {
                Ok(T::of_value(v))
            } else {
                Err(UiError::StateTypeMismatch)
            }
        },
        None => Ok(T::default_value()),
    }
}

} // verus!
