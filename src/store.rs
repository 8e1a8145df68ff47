//! Per-instance execution state and the discipline around its lock.
//!
//! Exactly one execution path holds an instance's store at a time.  A host
//! function that is about to re-enter the same instance first releases the
//! store: the slot that records the holding lock is emptied and the lock is
//! unlocked; the nested call takes and gives back the lock on its own; then
//! the lock is taken again and the slot restored.  The slot is empty outside
//! any hold and names the lock during a genuine hold.
use vstd::prelude::*;

use crate::config::{Config, ExternBindingType};
use crate::limits::{MemoryLimit, UNLIMITED};
use crate::registry::ObjectRegistry;

verus! {

// ---------------------------------------------------------------- lock slot

/// The store's lock as the store sees it: whether it is locked, and the
/// identity of the lock recorded as holding the store.
pub struct InnerLock {
    locked: bool,
    mutex_raw: Option<usize>,
}

/// Lock state as a pair (locked, recorded holder).
pub type LockState = (bool, Option<usize>);

pub open spec fn acquire_next(s: LockState, id: usize) -> LockState {
    (true, Some(id))
}

pub open spec fn leave_next(s: LockState, saved: Option<usize>) -> LockState {
    (false, saved)
}

pub open spec fn release_next(s: LockState) -> LockState {
    (false, None)
}

pub open spec fn restore_next(s: LockState, held: Option<usize>) -> LockState {
    (true, held)
}

impl InnerLock {
    pub closed spec fn state(&self) -> LockState {
        (self.locked, self.mutex_raw)
    }

    /// Unlocked, no holder.
    pub fn new() -> (r: InnerLock)
        ensures
            r.state() == (false, None::<usize>),
    {
        InnerLock { locked: false, mutex_raw: None }
    }

    pub fn is_locked(&self) -> (r: bool)
        ensures
            r == self.state().0,
    {
        self.locked
    }

    pub fn holder(&self) -> (r: Option<usize>)
        ensures
            r == self.state().1,
    {
        self.mutex_raw
    }

    /// The lock `id` was just taken.  Returns the holder to put back on
    /// leaving.  Taking a lock that is held would never return.
    pub fn acquire(&mut self, id: usize) -> (saved: Option<usize>)
        requires
            !old(self).state().0,
        ensures
            saved == old(self).state().1,
            final(self).state() == acquire_next(old(self).state(), id),
    {
        let saved = self.mutex_raw;
        self.locked = true;
        self.mutex_raw = Some(id);
        saved
    }

    /// The hold ends: the slot gets back what `acquire` saved, and the lock
    /// is given back.
    pub fn leave(&mut self, saved: Option<usize>)
        requires
            old(self).state().0,
        ensures
            final(self).state() == leave_next(old(self).state(), saved),
    {
        self.locked = false;
        self.mutex_raw = saved;
    }

    /// Before a nested call into the same instance: empties the slot and
    /// gives the lock back.  Returns the holder to restore afterwards;
    /// `None` when nothing was held, and then nothing is to be unlocked.
    pub fn release_store(&mut self) -> (held: Option<usize>)
        requires
            old(self).state().0,
        ensures
            held == old(self).state().1,
            final(self).state() == release_next(old(self).state()),
    {
        let held = self.mutex_raw;
        self.locked = false;
        self.mutex_raw = None;
        held
    }

    /// After the nested call: the lock is taken again and the slot restored.
    pub fn restore(&mut self, held: Option<usize>)
        requires
            !old(self).state().0,
        ensures
            final(self).state() == restore_next(old(self).state(), held),
    {
        self.locked = true;
        self.mutex_raw = held;
    }
}

/// A guest call that re-enters its own instance through a host function
/// never takes a lock that is held, and leaves the lock free and the slot
/// empty when it returns.
pub proof fn law_reentrant_call(id: usize)
    ensures
        ({
            let s0: LockState = (false, None);
            let outer_saved = s0.1;
            let s1 = acquire_next(s0, id);
            let held = s1.1;
            let s2 = release_next(s1);
            let inner_saved = s2.1;
            let s3 = acquire_next(s2, id);
            let s4 = leave_next(s3, inner_saved);
            let s5 = restore_next(s4, held);
            let s6 = leave_next(s5, outer_saved);
            &&& !s0.0 && s1.0 && s1.1 == Some(id)
            &&& !s2.0 && s2.1.is_none()
            &&& s3.0 && s3.1 == Some(id)
            &&& !s4.0
            &&& s5.0 && s5.1 == Some(id)
            &&& s6 == (false, None::<usize>)
        }),
{
}

// ---------------------------------------------------------------- one-shot init

#[derive(PartialEq, Eq, Structural, Clone, Copy, Debug)]
pub enum InstanceError {
    /// The instance was never initialized, or its initialization failed.
    Uninitialized,
    /// A core instance was needed and this is a component.
    NotCore,
    /// A component instance was needed and this is a core instance.
    NotComponent,
}

pub enum InitState<D> {
    Empty,
    Ready(D),
    Failed,
}

/// What an `initialize` request has to do.
#[derive(PartialEq, Eq, Structural, Clone, Copy, Debug)]
pub enum InitStep {
    /// Instantiate now, then hand the outcome to `complete`.
    Instantiate,
    /// Already initialized: report success and do nothing.
    AlreadyReady,
    /// An earlier initialization failed: report failure and do nothing.
    Refused,
}

/// The write-once slot for an instance's data.
pub struct InstanceSlot<D> {
    state: InitState<D>,
}

impl<D> InstanceSlot<D> {
    pub closed spec fn view_state(&self) -> InitState<D> {
        self.state
    }

    pub fn new() -> (r: InstanceSlot<D>)
        ensures
            r.view_state() is Empty,
    {
        InstanceSlot { state: InitState::Empty }
    }

    /// Whether an initialize request instantiates, succeeds at once, or fails at once.
    pub fn begin(&self) -> (r: InitStep)
        ensures
            r == match self.view_state() {
                InitState::Empty => InitStep::Instantiate,
                InitState::Ready(_) => InitStep::AlreadyReady,
                InitState::Failed => InitStep::Refused,
            },
    {
        match self.state {
            InitState::Empty => InitStep::Instantiate,
            InitState::Ready(_) => InitStep::AlreadyReady,
            InitState::Failed => InitStep::Refused,
        }
    }

    /// Publishes the outcome of the one instantiation.  Returns whether it succeeded.
    pub fn complete(&mut self, outcome: Option<D>) -> (r: bool)
        requires
            old(self).view_state() is Empty,
        ensures
            r == outcome.is_some(),
            final(self).view_state() == match outcome {
                Some(d) => InitState::Ready(d),
                None => InitState::<D>::Failed,
            },
    {
        match outcome {
            Some(d) => {
                self.state = InitState::Ready(d);
                true
            },
            None => {
                self.state = InitState::Failed;
                false
            },
        }
    }

    /// The instance's data, once initialized.
    pub fn get_data(&self) -> (r: Result<&D, InstanceError>)
        ensures
            match self.view_state() {
                InitState::Ready(d) => r == Ok::<&D, InstanceError>(&d),
                _ => r == Err::<&D, InstanceError>(InstanceError::Uninitialized),
            },
    {
        match &self.state {
            InitState::Ready(d) => Ok(d),
            _ => Err(InstanceError::Uninitialized),
        }
    }
}

/// A live instance: a core module instance or a component instance.
pub enum InstanceType<C, K> {
    Core(C),
    Component(K),
}

impl<C, K> InstanceType<C, K> {
    pub fn get_core(&self) -> (r: Result<&C, InstanceError>)
        ensures
            match self {
                InstanceType::Core(c) => r == Ok::<&C, InstanceError>(c),
                InstanceType::Component(_) => r == Err::<&C, InstanceError>(InstanceError::NotCore),
            },
    {
        match self {
            InstanceType::Core(c) => Ok(c),
            InstanceType::Component(_) => Err(InstanceError::NotCore),
        }
    }

    pub fn get_component(&self) -> (r: Result<&K, InstanceError>)
        ensures
            match self {
                InstanceType::Component(k) => r == Ok::<&K, InstanceError>(k),
                InstanceType::Core(_) => r == Err::<&K, InstanceError>(InstanceError::NotComponent),
            },
    {
        match self {
            InstanceType::Component(k) => Ok(k),
            InstanceType::Core(_) => Err(InstanceError::NotComponent),
        }
    }
}

// ---------------------------------------------------------------- store data

#[derive(PartialEq, Eq, Structural, Clone, Copy, Debug)]
pub enum StoreError {
    /// The object registry is not enabled for this instance.
    RegistryDisabled,
    /// The registry has no slot left.
    RegistryFull,
    /// A nil value where a value is needed.
    NullValue,
}

/// The mutable state of one instance.
pub struct StoreData<V> {
    pub inner_lock: InnerLock,
    pub error_signal: Option<String>,
    pub epoch_timeout: u64,
    pub epoch_autoreset: bool,
    pub memory_limits: MemoryLimit,
    pub object_registry: Option<ObjectRegistry<V>>,
}

impl<V> StoreData<V> {
    pub open spec fn wf(&self) -> bool {
        match self.object_registry {
            Some(r) => r.wf(),
            None => true,
        }
    }

    /// The registered values, or `None` when the registry is disabled.
    pub open spec fn registry_view(&self) -> Option<Map<nat, V>> {
        match self.object_registry {
            Some(r) => Some(r@),
            None => None,
        }
    }

    /// Slots the registry has taken, free or in use; `0` when it is disabled.
    pub open spec fn registry_slots(&self) -> nat {
        match self.object_registry {
            Some(r) => r.slot_count(),
            None => 0,
        }
    }

    /// Fresh state for an instance configured by `config`.
    pub fn new(config: &Config) -> (r: StoreData<V>)
        ensures
            r.wf(),
            r.inner_lock.state() == (false, None::<usize>),
            r.error_signal.is_none(),
            r.epoch_timeout == config.epoch_timeout,
            r.epoch_autoreset == config.epoch_autoreset,
            r.memory_limits.max_memory == match config.max_memory {
                Some(v) => v,
                None => UNLIMITED,
            },
            r.memory_limits.max_table_entries == match config.max_entries {
                Some(v) => v,
                None => UNLIMITED,
            },
            r.registry_view() == if config.extern_bind == ExternBindingType::Registry {
                Some(Map::<nat, V>::empty())
            } else {
                None
            },
    {
        let object_registry = if config.extern_bind == ExternBindingType::Registry {
            Some(ObjectRegistry::new())
        } else {
            None
        };
        StoreData {
            inner_lock: InnerLock::new(),
            error_signal: None,
            epoch_timeout: config.epoch_timeout,
            epoch_autoreset: config.epoch_autoreset,
            memory_limits: MemoryLimit::from_config(config),
            object_registry,
        }
    }

    pub fn get_registry(&self) -> (r: Result<&ObjectRegistry<V>, StoreError>)
        ensures
            match self.object_registry {
                Some(reg) => r == Ok::<&ObjectRegistry<V>, StoreError>(&reg),
                None => r == Err::<&ObjectRegistry<V>, StoreError>(StoreError::RegistryDisabled),
            },
    {
        match &self.object_registry {
            Some(reg) => Ok(reg),
            None => Err(StoreError::RegistryDisabled),
        }
    }

    pub fn get_registry_mut(&mut self) -> (r: Result<&mut ObjectRegistry<V>, StoreError>)
        ensures
            match r {
                Ok(reg) => old(self).object_registry == Some(*reg) && final(self).object_registry == Some(
                    *final(reg),
                ) && final(self).inner_lock == old(self).inner_lock && final(self).error_signal == old(
                    self,
                ).error_signal,
                Err(e) => old(self).object_registry.is_none() && e == StoreError::RegistryDisabled
                    && *final(self) == *old(self),
            },
    {
        match &mut self.object_registry {
            Some(reg) => Ok(reg),
            None => Err(StoreError::RegistryDisabled),
        }
    }

    /// Sets the pending error message; returns the one it replaces.
    pub fn signal_error(&mut self, msg: String) -> (r: Option<String>)
        ensures
            r == old(self).error_signal,
            final(self).error_signal == Some(msg),
            final(self).object_registry == old(self).object_registry,
            final(self).inner_lock == old(self).inner_lock,
    {
        let prev = self.error_signal.take();
        self.error_signal = Some(msg);
        prev
    }

    /// Clears the pending error message; returns it.
    pub fn signal_error_cancel(&mut self) -> (r: Option<String>)
        ensures
            r == old(self).error_signal,
            final(self).error_signal.is_none(),
            final(self).object_registry == old(self).object_registry,
            final(self).inner_lock == old(self).inner_lock,
    {
        self.error_signal.take()
    }

    /// The deadline, in ticks from now, to arm before entering the guest;
    /// `None` when no timeout is configured.
    pub fn epoch_deadline(&self) -> (r: Option<u64>)
        ensures
            r == if self.epoch_timeout >= 1 {
                Some(self.epoch_timeout)
            } else {
                None::<u64>
            },
    {
        if self.epoch_timeout >= 1 {
            Some(self.epoch_timeout)
        } else {
            None
        }
    }

    /// Registers a non-nil host value and returns its handle.
    pub fn register_object(&mut self, v: Option<V>) -> (r: Result<usize, StoreError>)
        requires
            old(self).wf(),
        ensures
            final(self).wf(),
            match r {
                Ok(h) => v.is_some() && old(self).registry_view().is_some() && h != 0
                    && !old(self).registry_view().unwrap().contains_key(h as nat)
                    && final(self).registry_view() == Some(old(self).registry_view().unwrap().insert(h as nat, v.unwrap()))
                    && h as nat <= final(self).registry_slots(),
                Err(e) => final(self).registry_view() == old(self).registry_view() && (if v.is_none() {
                    e == StoreError::NullValue
                } else if old(self).registry_view().is_none() {
                    e == StoreError::RegistryDisabled
                } else {
                    e == StoreError::RegistryFull && old(self).registry_slots() >= usize::MAX
                }),
            },
            v.is_some() && old(self).registry_view().is_some() && old(self).registry_slots() < usize::MAX
                ==> r is Ok,
    {
        let v = match v {
            Some(v) => v,
            None => {
                return Err(StoreError::NullValue);
            },
        };
        match &mut self.object_registry {
            Some(reg) => {
                if reg.is_full() {
                    return Err(StoreError::RegistryFull);
                }
                Ok(reg.register(v))
            },
            None => Err(StoreError::RegistryDisabled),
        }
    }

    /// The value under handle `ix`, or nil.
    pub fn registry_get(&self, ix: i64) -> (r: Result<Option<&V>, StoreError>)
        ensures
            match self.registry_view() {
                None => r == Err::<Option<&V>, StoreError>(StoreError::RegistryDisabled),
                Some(m) => r is Ok && match r->Ok_0 {
                    Some(x) => 0 <= ix <= usize::MAX && m.contains_key(ix as nat) && *x == m[ix as nat],
                    None => !(0 <= ix <= usize::MAX && m.contains_key(ix as nat)),
                },
            },
    {
        let reg = match self.get_registry() {
            Ok(reg) => reg,
            Err(e) => {
                return Err(e);
            },
        };
        if ix < 0 || ix as u64 > usize::MAX as u64 {
            return Ok(None);
        }
        Ok(reg.get(ix as usize))
    }

    /// Puts `v` under handle `ix`; a nil `v` unregisters the handle.  Returns
    /// the value that was there, or nil.
    pub fn registry_set(&mut self, ix: i64, v: Option<V>) -> (r: Result<Option<V>, StoreError>)
        requires
            old(self).wf(),
        ensures
            final(self).wf(),
            match old(self).registry_view() {
                None => r == Err::<Option<V>, StoreError>(StoreError::RegistryDisabled)
                    && final(self).registry_view() == old(self).registry_view(),
                Some(m) => if ix < 0 || ix > usize::MAX {
                    r == Ok::<Option<V>, StoreError>(None)
                        && final(self).registry_view() == old(self).registry_view()
                } else {
                    r == Ok::<Option<V>, StoreError>(crate::registry::lookup(m, ix as nat))
                        && final(self).registry_view() == Some(
                        match v {
                            None => m.remove(ix as nat),
                            Some(x) => if m.contains_key(ix as nat) {
                                m.insert(ix as nat, x)
                            } else {
                                m
                            },
                        },
                    )
                },
            },
    {
        match &mut self.object_registry {
            Some(reg) => {
                if ix < 0 || ix as u64 > usize::MAX as u64 {
                    return Ok(None);
                }
                match v {
                    None => Ok(reg.unregister(ix as usize)),
                    Some(x) => Ok(reg.replace(ix as usize, x)),
                }
            },
            None => Err(StoreError::RegistryDisabled),
        }
    }

    /// Unregisters handle `ix`; returns the value that was there, or nil.
    pub fn unregister_object(&mut self, ix: i64) -> (r: Result<Option<V>, StoreError>)
        requires
            old(self).wf(),
        ensures
            final(self).wf(),
            match old(self).registry_view() {
                None => r == Err::<Option<V>, StoreError>(StoreError::RegistryDisabled)
                    && final(self).registry_view() == old(self).registry_view(),
                Some(m) => if ix < 0 || ix > usize::MAX {
                    r == Ok::<Option<V>, StoreError>(None)
                        && final(self).registry_view() == old(self).registry_view()
                } else {
                    r == Ok::<Option<V>, StoreError>(crate::registry::lookup(m, ix as nat))
                        && final(self).registry_view() == Some(m.remove(ix as nat))
                },
            },
    {
        self.registry_set(ix, None)
    }
}

/// A handle that `register_object` returned, passed back as the host's
/// integer, reads as the registered value through `registry_get`; after
/// `unregister_object` on it, `registry_get` reads nil rather than failing.
pub proof fn law_register_then_get<V>(m0: Map<nat, V>, h: usize, v: V)
    requires
        !m0.contains_key(h as nat),
        h != 0,
        h <= i64::MAX,
    ensures
        ({
            let ix = h as i64;
            let m1 = m0.insert(h as nat, v);
            let m2 = m1.remove(ix as nat);
            &&& 0 <= ix <= usize::MAX
            &&& ix as nat == h as nat
            &&& m1.contains_key(ix as nat) && m1[ix as nat] == v
            &&& !m2.contains_key(ix as nat)
            &&& crate::registry::lookup(m1, ix as nat) == Some(v)
        }),
{
}

// ---------------------------------------------------------------- call frames

#[derive(PartialEq, Eq, Structural, Clone, Copy, Debug)]
pub enum CallError {
    /// The export takes `expected` parameters and `got` arguments came.
    ArgumentCount { expected: usize, got: usize },
}

/// Lays out the raw value slots of a guest call: the converted arguments,
/// then `zero` up to the number of results, since results are written back
/// into the same slots.  `converted` holds the first `min(given, n_params)`
/// arguments.  Too few arguments fail; too many fail when `exact`, and are
/// otherwise ignored.
pub fn frame_call<R: Copy>(
    converted: Vec<R>,
    given: usize,
    n_params: usize,
    n_results: usize,
    zero: R,
    exact: bool,
) -> (r: Result<Vec<R>, CallError>)
    requires
        converted@.len() == if given < n_params {
            given
        } else {
            n_params
        },
    ensures
        match r {
            Ok(slots) => {
                &&& given >= n_params
                &&& (exact ==> given == n_params)
                &&& slots@.len() == if n_params < n_results {
                    n_results
                } else {
                    n_params
                }
                &&& forall|k: int| 0 <= k < n_params ==> #[trigger] slots@[k] == converted@[k]
                &&& forall|k: int| n_params <= k < slots@.len() ==> #[trigger] slots@[k] == zero
            },
            Err(e) => (given < n_params || (exact && given != n_params)) && e == CallError::ArgumentCount {
                expected: n_params,
                got: given,
            },
        },
{
    if given < n_params || (exact && given != n_params) {
        return Err(CallError::ArgumentCount { expected: n_params, got: given });
    }
    let ghost conv = converted@;
    let mut slots = converted;
    while slots.len() < n_results
        invariant
            n_params <= slots@.len(),
            slots@.len() <= if n_params < n_results {
                n_results
            } else {
                n_params
            },
            forall|k: int| 0 <= k < n_params ==> #[trigger] slots@[k] == conv[k],
            forall|k: int| n_params <= k < slots@.len() ==> #[trigger] slots@[k] == zero,
        decreases n_results - slots@.len(),
    {
        slots.push(zero);
    }
    Ok(slots)
}

} // verus!
