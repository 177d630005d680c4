//! What the daemon keeps of its monitors while it runs, and from one run to the
//! next.
use fnv::FnvHashMap;
use std::collections::VecDeque;
use vstd::prelude::*;

use crate::daemon::util::atomic::{Atomic, AtomicBool, AtomicF64};
use crate::daemon::util::io::SocketMessageHolder;
use crate::daemon::util::lock::{MutexGuardRefWrapper, NonReadBlockingRWLock};
use crate::daemon::util::tables::{
    empty_states, remembered, state_entries, BrightnessStateInternal,
};
use crate::level::Level;
use crate::shared::BrightnessInput;

verus! {

/// What is remembered from one run of the daemon to the next.
pub struct CachedState {
    /// The position of the active monitor.
    pub active_monitor: usize,
    /// The state of each monitor, by the name of its adapter.
    pub brightness_states: FnvHashMap<String, BrightnessStateInternal>,
}

impl Default for CachedState {
    fn default() -> (state: CachedState)
        ensures
            state.active_monitor == 0,
            state.states() == Map::<Seq<char>, BrightnessStateInternal>::empty(),
    {
        CachedState { brightness_states: empty_states(), active_monitor: 0 }
    }
}

impl CachedState {
    /// The remembered states by name.
    pub open spec fn states(self) -> Map<Seq<char>, BrightnessStateInternal> {
        remembered(self.brightness_states)
    }

    /// Whether every remembered brightness is between 0 and 100.
    pub open spec fn is_sound(self) -> bool {
        forall|name: Seq<char>| #[trigger]
            self.states().contains_key(name) ==> self.states()[name].brightness.in_range()
    }

    /// Whether every remembered brightness is between 0 and 100.
    pub fn validate(&self) -> (valid: bool)
        ensures
            valid == self.is_sound(),
    {
        let list: Vec<(String, BrightnessStateInternal)> = state_entries(&self.brightness_states);
        let mut i: usize = 0;
        while i < list.len()
            invariant
                0 <= i <= list@.len(),
                crate::daemon::util::tables::lists_entries(list@, self.states()),
                forall|k: int| 0 <= k < i ==> (#[trigger] list@[k]).1.brightness.in_range(),
            decreases list@.len() - i,
        {
            if !list[i].1.brightness.is_valid() {
                assert(self.states().contains_key(list@[i as int].0@));
                return false;
            }
            i += 1;
        }
        true
    }

    /// The state to start with: what was read, unless nothing could be read or it
    /// is not sound; the default then.
    pub fn or_default(read: Option<CachedState>) -> (state: CachedState)
        ensures
            match read {
                Some(found) if found.is_sound() => state == found,
                _ => state.active_monitor == 0 && state.states() == Map::<
                    Seq<char>,
                    BrightnessStateInternal,
                >::empty(),
            },
    {
        match read {
            Some(found) => {
                if found.validate() {
                    found
                } else {
                    CachedState::default()
                }
            },
            None => CachedState::default(),
        }
    }
}

/// Whether it is known already which monitors a request is meant for.
pub enum BrightnessInputInfo {
    /// Not yet.
    UnProcessed,
    /// These are the positions of the monitors.
    Processed { relevant_monitor_indices: Vec<usize> },
}

impl BrightnessInputInfo {
    /// Notes which monitors a request is meant for.
    pub fn transform_unprocessed(&mut self, relevant_monitor_indices: Vec<usize>)
        requires
            *old(self) is UnProcessed,
        ensures
            *final(self) == (BrightnessInputInfo::Processed { relevant_monitor_indices }),
    {
        *self = BrightnessInputInfo::Processed { relevant_monitor_indices };
    }

    /// Whether the monitors are still to be found.
    pub fn is_unprocessed(&self) -> (unprocessed: bool)
        ensures
            unprocessed == (*self is UnProcessed),
    {
        match self {
            BrightnessInputInfo::UnProcessed => true,
            BrightnessInputInfo::Processed { .. } => false,
        }
    }
}

/// A request to change the brightness, with all that is needed to carry it out and
/// to answer it, so that it can be handed to whoever holds the lock.
pub struct ForwardedBrightnessInput {
    pub brightness_input: BrightnessInput,
    pub info: BrightnessInputInfo,
    pub socket_message_holder: SocketMessageHolder,
}

impl ForwardedBrightnessInput {
    /// A request whose monitors are not known yet.
    pub fn new_unprocessed(
        brightness_input: BrightnessInput,
        socket_message_holder: SocketMessageHolder,
    ) -> (input: ForwardedBrightnessInput)
        ensures
            input == (ForwardedBrightnessInput {
                brightness_input,
                info: BrightnessInputInfo::UnProcessed,
                socket_message_holder,
            }),
    {
        ForwardedBrightnessInput {
            brightness_input,
            info: BrightnessInputInfo::UnProcessed,
            socket_message_holder,
        }
    }

    /// A request whose monitors are known.
    pub fn new_processed(
        brightness_input: BrightnessInput,
        socket_message_holder: SocketMessageHolder,
        relevant_monitor_indices: Vec<usize>,
    ) -> (input: ForwardedBrightnessInput)
        ensures
            input == (ForwardedBrightnessInput {
                brightness_input,
                info: BrightnessInputInfo::Processed { relevant_monitor_indices },
                socket_message_holder,
            }),
    {
        ForwardedBrightnessInput {
            brightness_input,
            info: BrightnessInputInfo::Processed { relevant_monitor_indices },
            socket_message_holder,
        }
    }
}

/// What the holder of a monitor's brightness works with.
pub type BrightnessGuard<'a> = MutexGuardRefWrapper<
    'a,
    AtomicF64,
    VecDeque<ForwardedBrightnessInput>,
>;

/// The brightness of a monitor and what goes with it.
pub struct BrightnessState {
    /// The level; behind the lock, the requests that were handed to its holder.
    pub brightness: NonReadBlockingRWLock<AtomicF64, VecDeque<ForwardedBrightnessInput>>,
    /// Whether the nightlight is on.
    pub nightlight: NonReadBlockingRWLock<AtomicBool, ()>,
    /// Whether a fade is running.
    pub is_fading: bool,
}

/// The brightness of a monitor and what goes with it, as plain values.
#[verifier::ext_equal]
pub struct Light {
    /// The brightness.
    pub level: Level,
    /// Whether a task holds the brightness.
    pub held: bool,
    /// The requests handed to the task that holds the brightness.
    pub inbox: Seq<ForwardedBrightnessInput>,
    /// Whether the nightlight is on.
    pub nightlight: bool,
    /// Whether a task holds the nightlight.
    pub nightlight_held: bool,
    /// Whether a fade is running.
    pub is_fading: bool,
}

/// A light that nobody holds and that nothing is asked of.
pub open spec fn fresh_light(level: Level, nightlight: bool) -> Light {
    Light {
        level,
        held: false,
        inbox: Seq::empty(),
        nightlight,
        nightlight_held: false,
        is_fading: false,
    }
}

impl View for BrightnessState {
    type V = Light;

    open spec fn view(&self) -> Light {
        Light {
            level: self.brightness.internal.value(),
            held: self.brightness.locked,
            inbox: self.brightness.write_mutex@,
            nightlight: self.nightlight.internal.value(),
            nightlight_held: self.nightlight.locked,
            is_fading: self.is_fading,
        }
    }
}

impl BrightnessState {
    /// A light that nobody holds.
    pub fn new(initial_brightness: Level, nightlight: bool) -> (state: BrightnessState)
        ensures
            state@ == fresh_light(initial_brightness, nightlight),
    {
        let state = BrightnessState {
            brightness: NonReadBlockingRWLock::new(initial_brightness, VecDeque::new()),
            nightlight: NonReadBlockingRWLock::new(nightlight, ()),
            is_fading: false,
        };
        assert(state@ =~= fresh_light(initial_brightness, nightlight));
        state
    }

    /// The brightness, whoever holds it.
    pub fn get(&self) -> (level: Level)
        ensures
            level == self@.level,
    {
        self.brightness.get()
    }

    /// Hands a request to whoever holds the brightness.
    pub fn forward(&mut self, input: ForwardedBrightnessInput)
        ensures
            final(self)@ == (Light { inbox: old(self)@.inbox.push(input), ..old(self)@ }),
    {
        self.brightness.write_mutex.push_back(input);
    }

    /// Takes hold of the brightness, unless it is held already, for as long as the
    /// guard lives.
    pub fn try_lock_brightness(&mut self) -> (guard: Option<BrightnessGuard<'_>>)
        ensures
            guard is Some <==> !old(self)@.held,
            guard matches Some(g) ==> *g.internal == old(self).brightness.internal
                && *g.mutex_guard == old(self).brightness.write_mutex && *final(self) == (
            BrightnessState {
                brightness: NonReadBlockingRWLock {
                    internal: *final(g.internal),
                    write_mutex: *final(g.mutex_guard),
                    locked: false,
                },
                ..*old(self)
            }),
            guard is None ==> *final(self) == *old(self),
    {
        self.brightness.try_lock_mut()
    }

    /// Takes hold of the brightness, which nobody holds, for as long as the guard lives.
    pub fn lock_brightness(&mut self) -> (guard: BrightnessGuard<'_>)
        requires
            !old(self)@.held,
        ensures
            *guard.internal == old(self).brightness.internal,
            *guard.mutex_guard == old(self).brightness.write_mutex,
            *final(self) == (BrightnessState {
                brightness: NonReadBlockingRWLock {
                    internal: *final(guard.internal),
                    write_mutex: *final(guard.mutex_guard),
                    locked: false,
                },
                ..*old(self)
            }),
    {
        self.brightness.lock_mut()
    }
}

} // verus!
