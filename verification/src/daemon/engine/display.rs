//! All monitors that the daemon knows.
use fnv::FnvHashMap;
use std::collections::BTreeSet;
use vstd::prelude::*;

use crate::daemon::config::runtime::{
    fresh_light, BrightnessState, CachedState, ForwardedBrightnessInput, Light,
};
use crate::daemon::engine::monitor::{
    as_display, as_displays, displays_of, get_available_displays, lines_of, Display, Monitor,
    MonitorMetadata,
};
use crate::daemon::util::tables::{
    empty_positions, empty_states, insert_position, insert_state, lists_entries,
    position_of, positions, remembered, state_entries, BrightnessStateInternal,
};
use crate::level::{percent_level, Level};
use crate::shared::MonitorOverride;
use crate::text::{ascii_lower, concat3, join, joined, texts};

verus! {

broadcast use {
    vstd::std_specs::btree::group_btree_axioms,
    vstd::laws_cmp::group_laws_cmp,
};

/// A monitor and its brightness.
pub struct MonitorState {
    pub monitor_data: Monitor,
    pub brightness_state: BrightnessState,
}

/// A monitor and its brightness, as plain values.
#[verifier::ext_equal]
pub struct Screen {
    pub name: Seq<char>,
    pub metadata: Option<MonitorMetadata>,
    pub light: Light,
}

impl View for MonitorState {
    type V = Screen;

    open spec fn view(&self) -> Screen {
        Screen {
            name: self.monitor_data.adapter_name@,
            metadata: self.monitor_data.monitor_metadata,
            light: self.brightness_state@,
        }
    }
}

impl MonitorState {
    /// The name of the adapter.
    pub fn get_monitor_name(&self) -> (name: &String)
        ensures
            name@ == self@.name,
    {
        self.monitor_data.name()
    }

    /// The brightness of the monitor.
    pub fn get_brightness_state(&self) -> (state: &BrightnessState)
        ensures
            *state == self.brightness_state,
    {
        &self.brightness_state
    }
}

/// All known monitors, as plain values.
#[verifier::ext_equal]
pub struct Screens {
    /// Every monitor ever seen, in the order in which they were first seen.
    pub list: Seq<Screen>,
    /// The positions of those that are connected.
    pub enabled: Set<usize>,
    /// The position of the one that was made the active one.
    pub active: usize,
    /// The positions of those that can be found by their names: those of the list of
    /// displays that was reported last.
    pub named: Set<usize>,
}

/// The position of the monitor of the given name, upper and lower case being the
/// same.
pub open spec fn position(list: Seq<Screen>, name: Seq<char>) -> Option<usize>
    decreases list.len(),
{
    if list.len() == 0 {
        None
    } else if position(list.drop_last(), name) is Some {
        position(list.drop_last(), name)
    } else if ascii_lower(list.last().name) == ascii_lower(name) {
        Some((list.len() - 1) as usize)
    } else {
        None
    }
}

/// The elements of a set that are below a bound, in ascending order.
pub open spec fn ascending(set: Set<usize>, bound: nat) -> Seq<usize>
    decreases bound,
{
    if bound == 0 {
        Seq::empty()
    } else {
        let before = ascending(set, (bound - 1) as nat);
        if set.contains((bound - 1) as usize) {
            before.push((bound - 1) as usize)
        } else {
            before
        }
    }
}

/// The list holds what it should: no index at or above the bound, in strictly
/// ascending order, and exactly the elements of the set.
pub proof fn lemma_ascending(set: Set<usize>, bound: nat)
    requires
        bound <= usize::MAX,
    ensures
        forall|k: int|
            0 <= k < ascending(set, bound).len() ==> set.contains(#[trigger] ascending(set, bound)[k])
                && ascending(set, bound)[k] < bound,
        forall|j: int, k: int|
            0 <= j < k < ascending(set, bound).len() ==> #[trigger] ascending(set, bound)[j]
                < #[trigger] ascending(set, bound)[k],
        forall|i: usize|
            i < bound && #[trigger] set.contains(i) ==> ascending(set, bound).contains(i),
    decreases bound,
{
    if bound > 0 {
        let before = ascending(set, (bound - 1) as nat);
        lemma_ascending(set, (bound - 1) as nat);
        assert forall|i: usize| i < bound && #[trigger] set.contains(i) implies ascending(
            set,
            bound,
        ).contains(i) by {
            if i < bound - 1 {
                let k = before.index_of(i);
                assert(before.contains(i));
                assert(ascending(set, bound)[k] == i);
            } else {
                assert(ascending(set, bound)[before.len() as int] == i);
            }
        }
    }
}

impl Screens {
    /// The positions that a choice of monitors stands for.
    pub open spec fn chosen(self, monitors: MonitorOverride) -> Seq<usize> {
        match monitors {
            MonitorOverride::All => Seq::new(self.list.len(), |i: int| i as usize),
            MonitorOverride::Enabled => ascending(self.enabled, self.list.len()),
            MonitorOverride::Specified { adapter_name } => match self.found(adapter_name@) {
                Some(index) => seq![index],
                None => Seq::empty(),
            },
            MonitorOverride::Active => seq![self.active],
        }
    }

    /// The position that a name stands for, upper and lower case being the same.
    pub open spec fn found(self, name: Seq<char>) -> Option<usize> {
        match position(self.list, name) {
            Some(index) => if self.named.contains(index) {
                Some(index)
            } else {
                None
            },
            None => None,
        }
    }

    /// Whether the monitor that was made the active one exists.
    pub open spec fn has_active(self) -> bool {
        self.active < self.list.len()
    }

    /// The same monitors with the light of one of them replaced.
    pub open spec fn relit(self, index: int, light: Light) -> Screens {
        Screens { list: self.list.update(index, Screen { light, ..self.list[index] }), ..self }
    }

    /// The same monitors after one display was reported: a known monitor keeps its
    /// light, an unknown one comes last, at full brightness.
    pub open spec fn reported(self, display: Display) -> Screens {
        let index = match position(self.list, display.name) {
            Some(index) => index,
            None => self.list.len() as usize,
        };
        Screens {
            list: match position(self.list, display.name) {
                Some(index) => self.list.update(
                    index as int,
                    Screen { metadata: display.metadata, ..self.list[index as int] },
                ),
                None => self.list.push(
                    Screen {
                        name: display.name,
                        metadata: display.metadata,
                        light: fresh_light(percent_level(100), false),
                    },
                ),
            },
            enabled: if display.connected {
                self.enabled.insert(index)
            } else {
                self.enabled
            },
            active: self.active,
            named: self.named.insert(index),
        }
    }

    /// The same monitors after displays were reported, one after the other.
    pub open spec fn after_reports(self, displays: Seq<Display>) -> Screens
        decreases displays.len(),
    {
        if displays.len() == 0 {
            self
        } else {
            self.after_reports(displays.drop_last()).reported(displays.last())
        }
    }

    /// The same monitors before a new list of displays: none is connected, and none
    /// is found by its name.
    pub open spec fn unlisted(self) -> Screens {
        Screens { enabled: Set::empty(), named: Set::empty(), ..self }
    }

    /// The same monitors after a new list of displays replaced the one before: the
    /// connected ones, and those that are found by their names, are those of the new
    /// list.
    pub open spec fn overwritten(self, displays: Seq<Display>) -> Screens {
        self.unlisted().after_reports(displays)
    }

    /// Whether no two monitors have names that differ in case alone, and only known
    /// monitors are connected or found by their names.
    pub open spec fn is_sound(self) -> bool {
        &&& self.list.len() <= usize::MAX
        &&& forall|i: int, j: int|
            0 <= i < j < self.list.len() ==> ascii_lower((#[trigger] self.list[i]).name)
                != ascii_lower((#[trigger] self.list[j]).name)
        &&& forall|i: usize| #[trigger] self.enabled.contains(i) ==> i < self.list.len()
        &&& forall|i: usize| #[trigger] self.named.contains(i) ==> i < self.list.len()
    }
}

/// A position that is found is one of the list, and its monitor has the name.
pub proof fn lemma_position(list: Seq<Screen>, name: Seq<char>)
    requires
        list.len() <= usize::MAX,
    ensures
        match position(list, name) {
            Some(index) => index < list.len() && ascii_lower(list[index as int].name)
                == ascii_lower(name),
            None => forall|i: int|
                0 <= i < list.len() ==> ascii_lower((#[trigger] list[i]).name) != ascii_lower(name),
        },
    decreases list.len(),
{
    if list.len() > 0 {
        lemma_position(list.drop_last(), name);
        assert forall|i: int|
            0 <= i < list.len() && position(list, name) is None implies ascii_lower(
            (#[trigger] list[i]).name,
        ) != ascii_lower(name) by {
            if i < list.len() - 1 {
                assert(list.drop_last()[i] == list[i]);
            }
        }
    }
}

/// Where no two names are the same, the position of a name is that of its monitor.
pub proof fn lemma_position_is(screens: Screens, index: int, name: Seq<char>)
    requires
        screens.is_sound(),
        0 <= index < screens.list.len(),
        ascii_lower(screens.list[index].name) == ascii_lower(name),
    ensures
        position(screens.list, name) == Some(index as usize),
{
    lemma_position(screens.list, name);
    match position(screens.list, name) {
        Some(found) => {
            if found < index {
                assert(ascii_lower(screens.list[found as int].name) != ascii_lower(
                    screens.list[index].name,
                ));
            } else if found > index {
                assert(ascii_lower(screens.list[index].name) != ascii_lower(
                    screens.list[found as int].name,
                ));
            }
        },
        None => {},
    }
}

/// All monitors that the daemon knows.
pub struct CollectiveMonitorStateInternal {
    /// Every monitor ever seen, connected or not.
    pub available_adapter_list: Vec<MonitorState>,
    /// The positions of those that are connected.
    pub enabled_monitors: BTreeSet<usize>,
    /// The position of the active one.
    pub active_monitor: usize,
    /// The position of each that was reported last, by its name in lower case.
    pub monitor_names: FnvHashMap<String, usize>,
}

impl View for CollectiveMonitorStateInternal {
    type V = Screens;

    open spec fn view(&self) -> Screens {
        Screens {
            list: Seq::new(
                self.available_adapter_list@.len(),
                |i: int| self.available_adapter_list@[i]@,
            ),
            enabled: self.enabled_monitors@,
            active: self.active_monitor,
            named: Set::new(
                |i: usize|
                    i < self.available_adapter_list@.len() && ({
                        let key = ascii_lower(self.available_adapter_list@[i as int]@.name);
                        positions(self.monitor_names).contains_key(key) && positions(
                            self.monitor_names,
                        )[key] == i
                    }),
            ),
        }
    }
}

impl CollectiveMonitorStateInternal {
    /// No two names differ in case alone, the table of names agrees with the list,
    /// and only known monitors are connected.
    pub open spec fn wf(self) -> bool {
        let list = self@.list;
        let table = positions(self.monitor_names);
        &&& list.len() <= usize::MAX
        &&& forall|i: int, j: int|
            0 <= i < j < list.len() ==> ascii_lower((#[trigger] list[i]).name) != ascii_lower(
                (#[trigger] list[j]).name,
            )
        &&& forall|key: Seq<char>| #[trigger]
            table.contains_key(key) ==> table[key] < list.len() && ascii_lower(
                list[table[key] as int].name,
            ) == key
        &&& forall|i: usize| #[trigger] self@.enabled.contains(i) ==> i < list.len()
    }

    /// What the invariant says of the monitors as plain values.
    pub proof fn lemma_sound(self)
        requires
            self.wf(),
        ensures
            self@.is_sound(),
    {
    }

    /// The position that a name stands for, upper and lower case being the same.
    pub fn get_monitor_index_by_name(&self, name: &str) -> (found: Option<&usize>)
        requires
            self.wf(),
        ensures
            match found {
                Some(index) => self@.found(name@) == Some(*index) && *index < self@.list.len(),
                None => self@.found(name@) is None,
            },
    {
        let key: String = name.to_ascii_lowercase();
        let found: Option<&usize> = position_of(&self.monitor_names, key.as_str());
        proof {
            self.lemma_sound();
            lemma_position(self@.list, name@);
            match found {
                Some(index) => {
                    lemma_position_is(self@, *index as int, name@);
                },
                None => {
                    assert(self@.found(name@) is None);
                },
            }
        }
        found
    }

    /// The position of the monitor of a name, whether or not it was reported last.
    fn known_index(&self, name: &str) -> (known: Option<usize>)
        requires
            self.wf(),
        ensures
            known == position(self@.list, name@),
            known matches Some(index) ==> index < self@.list.len(),
    {
        let key: String = name.to_ascii_lowercase();
        let mut i: usize = 0;
        while i < self.available_adapter_list.len()
            invariant
                0 <= i <= self.available_adapter_list@.len(),
                self.wf(),
                key@ == ascii_lower(name@),
                forall|j: int|
                    0 <= j < i ==> ascii_lower((#[trigger] self@.list[j]).name) != key@,
            decreases self.available_adapter_list@.len() - i,
        {
            let own: String =
                self.available_adapter_list[i].get_monitor_name().as_str().to_ascii_lowercase();
            assert(own@ == ascii_lower(self@.list[i as int].name));
            if own == key {
                proof {
                    self.lemma_sound();
                    lemma_position_is(self@, i as int, name@);
                }
                return Some(i);
            }
            i += 1;
        }
        proof {
            lemma_position(self@.list, name@);
        }
        None
    }

    /// The monitor of the given name.
    pub fn get_monitor_state_by_name(&self, name: &str) -> (found: Option<&MonitorState>)
        requires
            self.wf(),
        ensures
            match found {
                Some(state) => self@.found(name@) is Some && *state
                    == self.available_adapter_list@[self@.found(name@)->0 as int],
                None => self@.found(name@) is None,
            },
    {
        match self.get_monitor_index_by_name(name) {
            Some(index) => self.get_monitor_state_by_index(*index),
            None => None,
        }
    }

    /// The monitor at a position.
    pub fn get_monitor_state_by_index(&self, index: usize) -> (found: Option<&MonitorState>)
        ensures
            match found {
                Some(state) => index < self@.list.len() && *state
                    == self.available_adapter_list@[index as int] && state@
                    == self@.list[index as int],
                None => index >= self@.list.len(),
            },
    {
        if index < self.available_adapter_list.len() {
            Some(&self.available_adapter_list[index])
        } else {
            None
        }
    }

    /// The positions of all monitors.
    pub fn iter_all_monitor_indices(&self) -> (indices: Vec<usize>)
        requires
            self.wf(),
        ensures
            indices@ == self@.chosen(MonitorOverride::All),
    {
        let mut indices: Vec<usize> = Vec::new();
        let mut i: usize = 0;
        while i < self.available_adapter_list.len()
            invariant
                0 <= i <= self.available_adapter_list@.len(),
                indices@.len() == i,
                forall|k: int| 0 <= k < i ==> indices@[k] == k,
            decreases self.available_adapter_list@.len() - i,
        {
            indices.push(i);
            i += 1;
        }
        assert(indices@ =~= self@.chosen(MonitorOverride::All));
        indices
    }

    /// The positions of the connected monitors, in ascending order.
    pub fn iter_enabled_monitor_indices(&self) -> (indices: Vec<usize>)
        requires
            self.wf(),
        ensures
            indices@ == self@.chosen(MonitorOverride::Enabled),
    {
        let mut indices: Vec<usize> = Vec::new();
        let mut i: usize = 0;
        while i < self.available_adapter_list.len()
            invariant
                0 <= i <= self.available_adapter_list@.len(),
                indices@ == ascending(self@.enabled, i as nat),
            decreases self.available_adapter_list@.len() - i,
        {
            if self.enabled_monitors.contains(&i) {
                indices.push(i);
            }
            i += 1;
        }
        indices
    }

    /// All monitors.
    pub fn iter_all_monitor_states(&self) -> (states: &Vec<MonitorState>)
        ensures
            *states == self.available_adapter_list,
    {
        &self.available_adapter_list
    }

    /// The connected monitors, in ascending order of their positions.
    pub fn iter_enabled_monitor_states(&self) -> (states: Vec<&MonitorState>)
        requires
            self.wf(),
        ensures
            states@.len() == self@.chosen(MonitorOverride::Enabled).len(),
            forall|k: int|
                0 <= k < states@.len() ==> *(#[trigger] states@[k])
                    == self.available_adapter_list@[self@.chosen(
                    MonitorOverride::Enabled,
                )[k] as int],
    {
        let indices: Vec<usize> = self.iter_enabled_monitor_indices();
        proof {
            lemma_ascending(self@.enabled, self@.list.len());
        }
        let mut states: Vec<&MonitorState> = Vec::new();
        let mut k: usize = 0;
        while k < indices.len()
            invariant
                0 <= k <= indices@.len(),
                indices@ == self@.chosen(MonitorOverride::Enabled),
                forall|j: int| 0 <= j < indices@.len() ==> (#[trigger] indices@[j]) < self@.list.len(),
                states@.len() == k,
                forall|j: int|
                    0 <= j < k ==> *(#[trigger] states@[j])
                        == self.available_adapter_list@[indices@[j] as int],
            decreases indices@.len() - k,
        {
            assert(indices@[k as int] < self@.list.len());
            states.push(&self.available_adapter_list[indices[k]]);
            k += 1;
        }
        states
    }

    /// Whether the monitor at a position is connected.
    pub fn is_monitor_index_enabled(&self, monitor_index: usize) -> (enabled: bool)
        ensures
            enabled == self@.enabled.contains(monitor_index),
    {
        self.enabled_monitors.contains(&monitor_index)
    }

    /// Whether the monitor of a name is known and connected.
    pub fn is_monitor_name_enabled(&self, monitor_name: &str) -> (enabled: bool)
        requires
            self.wf(),
        ensures
            enabled == match self@.found(monitor_name@) {
                Some(index) => self@.enabled.contains(index),
                None => false,
            },
    {
        match self.get_monitor_index_by_name(monitor_name) {
            Some(index) => self.enabled_monitors.contains(index),
            None => false,
        }
    }

    /// No longer treats the monitor at a position as connected.
    pub fn remove_enabled_monitor_by_index(&mut self, monitor_index: &usize)
        ensures
            old(self).wf() ==> final(self).wf(),
            final(self)@ == (Screens {
                enabled: old(self)@.enabled.remove(*monitor_index),
                ..old(self)@
            }),
    {
        self.enabled_monitors.remove(monitor_index);
        assert(self@.list =~= old(self)@.list);
    }

    /// No longer treats the monitor of a name as connected.
    pub fn remove_enabled_monitor_by_name(&mut self, monitor_name: &str)
        requires
            old(self).wf(),
        ensures
            final(self).wf(),
            final(self)@ == match old(self)@.found(monitor_name@) {
                Some(index) => Screens {
                    enabled: old(self)@.enabled.remove(index),
                    ..old(self)@
                },
                None => old(self)@,
            },
    {
        match self.get_monitor_index_by_name(monitor_name) {
            Some(found) => {
                let index: usize = *found;
                self.remove_enabled_monitor_by_index(&index);
            },
            None => {},
        }
    }

    /// Makes the monitor of a name the active one. It has to be connected.
    pub fn set_active_monitor_by_name(&mut self, new_active_monitor_name: &str) -> (done: Result<
        (),
        &'static str,
    >)
        requires
            old(self).wf(),
        ensures
            final(self).wf(),
            match old(self)@.found(new_active_monitor_name@) {
                Some(index) => if old(self)@.enabled.contains(index) {
                    done is Ok && final(self)@ == (Screens { active: index, ..old(self)@ })
                } else {
                    done is Err && done->Err_0@ == "Requested monitor is disabled!"@ && final(self)@ == old(self)@
                },
                None => done is Err && done->Err_0@ == "Requested monitor does not exist!"@
                    && final(self)@ == old(self)@,
            },
    {
        match self.get_monitor_index_by_name(new_active_monitor_name) {
            Some(found) => {
                let index: usize = *found;
                if self.is_monitor_index_enabled(index) {
                    self.active_monitor = index;
                    assert(self@.list =~= old(self)@.list);
                    Ok(())
                } else {
                    Err("Requested monitor is disabled!")
                }
            },
            None => Err("Requested monitor does not exist!"),
        }
    }

    /// Makes the monitor at a position the active one. It has to be connected.
    pub fn set_active_monitor_by_index(&mut self, new_active_monitor_index: usize) -> (done: Result<
        (),
        &'static str,
    >)
        requires
            old(self).wf(),
        ensures
            final(self).wf(),
            if new_active_monitor_index >= old(self)@.list.len() {
                done is Err && done->Err_0@ == "Specified index does not exist!"@ && final(self)@
                    == old(self)@
            } else if !old(self)@.enabled.contains(new_active_monitor_index) {
                done is Err && done->Err_0@ == "Specified monitor is not enabled!"@ && final(self)@
                    == old(self)@
            } else {
                done is Ok && final(self)@ == (Screens {
                    active: new_active_monitor_index,
                    ..old(self)@
                })
            },
    {
        if self.available_adapter_list.len() <= new_active_monitor_index {
            Err("Specified index does not exist!")
        } else if !self.is_monitor_index_enabled(new_active_monitor_index) {
            Err("Specified monitor is not enabled!")
        } else {
            self.active_monitor = new_active_monitor_index;
            assert(self@.list =~= old(self)@.list);
            Ok(())
        }
    }

    /// The position of the active monitor.
    pub fn get_active_monitor_index(&self) -> (index: &usize)
        ensures
            *index == self@.active,
    {
        &self.active_monitor
    }

    /// The positions that a choice of monitors stands for.
    pub fn get_monitor_override_indices(&self, monitors: &MonitorOverride) -> (indices: Vec<usize>)
        requires
            self.wf(),
        ensures
            indices@ == self@.chosen(*monitors),
    {
        match monitors {
            MonitorOverride::All => self.iter_all_monitor_indices(),
            MonitorOverride::Enabled => self.iter_enabled_monitor_indices(),
            MonitorOverride::Specified { adapter_name } => {
                let mut indices: Vec<usize> = Vec::new();
                match self.get_monitor_index_by_name(adapter_name.as_str()) {
                    Some(index) => {
                        indices.push(*index);
                    },
                    None => {},
                }
                assert(indices@ =~= self@.chosen(*monitors));
                indices
            },
            MonitorOverride::Active => {
                let mut indices: Vec<usize> = Vec::new();
                indices.push(self.active_monitor);
                assert(indices@ =~= self@.chosen(*monitors));
                indices
            },
        }
    }
}

// ---------------------------------------------------------------------------
// which displays there are
// ---------------------------------------------------------------------------

impl CollectiveMonitorStateInternal {
    /// Takes over the metadata of a monitor, or the monitor itself if it is not
    /// known yet. Gives its position.
    fn overwrite_monitor_metadata(&mut self, monitor: Monitor) -> (index: usize)
        requires
            old(self).wf(),
        ensures
            final(self).wf(),
            final(self)@ == old(self)@.reported(as_display((monitor, false))),
            index < final(self)@.list.len(),
            index == match position(old(self)@.list, monitor.adapter_name@) {
                Some(found) => found as int,
                None => old(self)@.list.len() as int,
            },
    {
        let ghost before = self@;
        let adapter_name: String = monitor.adapter_name.as_str().to_ascii_lowercase();
        let known: Option<usize> = self.known_index(monitor.adapter_name.as_str());
        proof {
            lemma_position(before.list, monitor.adapter_name@);
        }
        match known {
            Some(index) => {
                insert_position(&mut self.monitor_names, adapter_name, index);
                self.available_adapter_list[index].monitor_data.update_metadata(
                    monitor.monitor_metadata,
                );
                assert(self@ =~= before.reported(as_display((monitor, false))));
                index
            },
            None => {
                let ghost display = as_display((monitor, false));
                let index: usize = self.available_adapter_list.len();
                self.available_adapter_list.push(
                    MonitorState {
                        monitor_data: monitor,
                        brightness_state: BrightnessState::new(Level::from_percent(100), false),
                    },
                );
                assert(self.available_adapter_list.len() == index + 1);
                insert_position(&mut self.monitor_names, adapter_name, index);
                assert(self@ =~= before.reported(display));
                proof {
                    let table = positions(old(self).monitor_names);
                    assert forall|i: int| 0 <= i < before.list.len() implies ascii_lower(
                        (#[trigger] before.list[i]).name,
                    ) != adapter_name@ by {}
                    assert(self@.list[index as int].name == display.name);
                    assert forall|i: int| 0 <= i < before.list.len() implies self@.list[i]
                        == #[trigger] before.list[i] by {}
                }
                index
            },
        }
    }

    /// Takes over a new list of displays, each with whether it is connected.
    pub fn state_overwrite(&mut self, displays_list: Vec<(Monitor, bool)>)
        requires
            old(self).wf(),
        ensures
            final(self).wf(),
            final(self)@ == old(self)@.overwritten(as_displays(displays_list@)),
    {
        let ghost displays = as_displays(displays_list@);
        let ghost cleared = self@.unlisted();
        self.enabled_monitors.clear();
        self.monitor_names = empty_positions();
        assert(self@ =~= cleared);
        assert(displays.take(0) =~= Seq::<Display>::empty());
        for entry in it: displays_list
            invariant
                it.seq() == displays_list@,
                displays == as_displays(displays_list@),
                self.wf(),
                self@ == cleared.after_reports(displays.take(it.index())),
        {
            let ghost before = self@;
            let ghost k = it.index();
            proof {
                assert(displays.take(k + 1).drop_last() =~= displays.take(k));
                assert(displays.take(k + 1).last() == as_display(entry));
            }
            let connected: bool = entry.1;
            let index: usize = self.overwrite_monitor_metadata(entry.0);
            if connected {
                self.enabled_monitors.insert(index);
            }
            assert(self@ =~= before.reported(as_display(entry)));
        }
        assert(displays.take(displays.len() as int) =~= displays);
    }

    /// Takes over the displays that were found out, if they could be. `output` is
    /// what `xrandr --current` wrote, or why it could not be run.
    pub fn refresh_displays(&mut self, output: Result<Vec<u8>, String>) -> (done: Result<
        (),
        String,
    >)
        requires
            old(self).wf(),
        ensures
            final(self).wf(),
            match output {
                Ok(bytes) => done is Ok && final(self)@ == old(self)@.overwritten(
                    displays_of(lines_of(bytes@)),
                ),
                Err(reason) => done == Err::<(), String>(reason) && final(self)@ == old(self)@,
            },
    {
        match output {
            Ok(bytes) => {
                self.state_overwrite(get_available_displays(&bytes));
                Ok(())
            },
            Err(reason) => Err(reason),
        }
    }
}

// ---------------------------------------------------------------------------
// what is kept from one run to the next
// ---------------------------------------------------------------------------

/// No monitors at all.
pub open spec fn no_screens(active: usize) -> Screens {
    Screens { list: Seq::empty(), enabled: Set::empty(), active, named: Set::empty() }
}

/// Whether something is remembered under a name, upper and lower case being the
/// same.
pub open spec fn is_remembered(
    states: Map<Seq<char>, BrightnessStateInternal>,
    name: Seq<char>,
) -> bool {
    exists|key: Seq<char>| #[trigger]
        states.contains_key(key) && ascii_lower(key) == ascii_lower(name)
}

/// Whether a light is the one remembered under a name. If nothing is, it is at full
/// brightness. If several names that differ in case alone are remembered, it is
/// that of one of them.
pub open spec fn restored(
    states: Map<Seq<char>, BrightnessStateInternal>,
    name: Seq<char>,
    light: Light,
) -> bool {
    if is_remembered(states, name) {
        exists|key: Seq<char>| #[trigger]
            states.contains_key(key) && ascii_lower(key) == ascii_lower(name) && light
                == fresh_light(states[key].brightness, states[key].nightlight)
    } else {
        light == fresh_light(percent_level(100), false)
    }
}

impl Screens {
    /// Whether these are the monitors of the given list, each with the light that
    /// is remembered of it.
    pub open spec fn restored_from(
        self,
        listed: Screens,
        states: Map<Seq<char>, BrightnessStateInternal>,
    ) -> bool {
        &&& self.list.len() == listed.list.len()
        &&& forall|i: int|
            0 <= i < self.list.len() ==> (#[trigger] self.list[i]).name == listed.list[i].name
                && self.list[i].metadata == listed.list[i].metadata && restored(
                states,
                self.list[i].name,
                self.list[i].light,
            )
        &&& self.enabled == listed.enabled
        &&& self.active == listed.active
        &&& self.named == listed.named
    }

    /// Whether the states are those of these monitors, by name.
    pub open spec fn kept_in(self, states: Map<Seq<char>, BrightnessStateInternal>) -> bool {
        &&& forall|i: int|
            0 <= i < self.list.len() ==> states.contains_key((#[trigger] self.list[i]).name)
                && states[self.list[i].name] == (BrightnessStateInternal {
                brightness: self.list[i].light.level,
                nightlight: self.list[i].light.nightlight,
            })
        &&& forall|key: Seq<char>| #[trigger]
            states.contains_key(key) ==> exists|i: int|
                0 <= i < self.list.len() && (#[trigger] self.list[i]).name == key
    }
}

/// Displays that are reported to a daemon without monitors make monitors with fresh
/// lights.
proof fn lemma_reports_are_fresh(start: Screens, displays: Seq<Display>)
    requires
        start.list.len() == 0,
        displays.len() <= usize::MAX,
    ensures
        forall|i: int|
            0 <= i < start.after_reports(displays).list.len() ==> (
            #[trigger] start.after_reports(displays).list[i]).light == fresh_light(
                percent_level(100),
                false,
            ),
        start.after_reports(displays).list.len() <= displays.len(),
    decreases displays.len(),
{
    if displays.len() > 0 {
        lemma_reports_are_fresh(start, displays.drop_last());
        let before = start.after_reports(displays.drop_last());
        let after = start.after_reports(displays);
        lemma_position(before.list, displays.last().name);
        assert forall|i: int| 0 <= i < after.list.len() implies (#[trigger] after.list[i]).light
            == fresh_light(percent_level(100), false) by {
            if i < before.list.len() {
                assert(after.list[i].light == before.list[i].light);
            }
        }
    }
}

impl CollectiveMonitorStateInternal {
    /// The monitors of a list of displays, each with the light that is remembered
    /// of it. The list is empty if the displays could not be found out.
    pub fn new(
        active_monitor: usize,
        brightness_states: FnvHashMap<String, BrightnessStateInternal>,
        displays: Vec<(Monitor, bool)>,
    ) -> (states: CollectiveMonitorStateInternal)
        ensures
            states.wf(),
            states@.restored_from(
                no_screens(active_monitor).overwritten(as_displays(displays@)),
                remembered(brightness_states),
            ),
    {
        let ghost listed = no_screens(active_monitor).overwritten(as_displays(displays@));
        let mut states = CollectiveMonitorStateInternal {
            available_adapter_list: Vec::new(),
            enabled_monitors: BTreeSet::new(),
            active_monitor,
            monitor_names: empty_positions(),
        };
        assert(states@ =~= no_screens(active_monitor));
        assert(displays.len() == displays@.len());
        states.state_overwrite(displays);
        let entries: Vec<(String, BrightnessStateInternal)> = state_entries(&brightness_states);
        let ghost map = remembered(brightness_states);
        proof {
            lemma_reports_are_fresh(
                no_screens(active_monitor).unlisted(),
                as_displays(displays@),
            );
        }
        let mut k: usize = 0;
        while k < entries.len()
            invariant
                0 <= k <= entries@.len(),
                states.wf(),
                map == remembered(brightness_states),
                lists_entries(entries@, map),
                states@.list.len() == listed.list.len(),
                states@.enabled == listed.enabled,
                states@.active == listed.active,
                states@.named == listed.named,
                forall|i: int|
                    0 <= i < states@.list.len() ==> (#[trigger] states@.list[i]).name
                        == listed.list[i].name && states@.list[i].metadata
                        == listed.list[i].metadata && lit_by(
                        entries@,
                        k as int,
                        states@.list[i].name,
                        states@.list[i].light,
                    ),
            decreases entries@.len() - k,
        {
            let found: Option<usize> = states.known_index(entries[k].0.as_str());
            let ghost before = states@;
            let ghost name = entries@[k as int].0@;
            let ghost state = entries@[k as int].1;
            proof {
                states.lemma_sound();
                lemma_position(before.list, name);
            }
            match found {
                Some(index) => {
                    assert(lit_by(
                        entries@,
                        k as int,
                        before.list[index as int].name,
                        before.list[index as int].light,
                    ));
                    states.available_adapter_list[index].brightness_state.brightness.set_value(
                        entries[k].1.brightness,
                    );
                    states.available_adapter_list[index].brightness_state.nightlight.set_value(
                        entries[k].1.nightlight,
                    );
                    assert(states@ =~= before.relit(
                        index as int,
                        fresh_light(state.brightness, state.nightlight),
                    ));
                    assert forall|i: int|
                        0 <= i < states@.list.len() implies lit_by(
                        entries@,
                        k + 1,
                        (#[trigger] states@.list[i]).name,
                        states@.list[i].light,
                    ) by {
                        if i == index {
                            assert(ascii_lower(entries@[k as int].0@) == ascii_lower(
                                states@.list[i].name,
                            ));
                        } else {
                            assert(states@.list[i] == before.list[i]);
                            if ascii_lower(before.list[i].name) == ascii_lower(name) {
                                lemma_position_is(before, i, name);
                            }
                            lemma_lit_by_next(
                                entries@,
                                k as int,
                                states@.list[i].name,
                                states@.list[i].light,
                            );
                        }
                    }
                },
                None => {
                    assert forall|i: int|
                        0 <= i < states@.list.len() implies lit_by(
                        entries@,
                        k + 1,
                        (#[trigger] states@.list[i]).name,
                        states@.list[i].light,
                    ) by {
                        assert(states@.list[i] == before.list[i]);
                        lemma_lit_by_next(
                            entries@,
                            k as int,
                            states@.list[i].name,
                            states@.list[i].light,
                        );
                    }
                },
            }
            k += 1;
        }
        proof {
            assert forall|i: int| 0 <= i < states@.list.len() implies restored(
                map,
                (#[trigger] states@.list[i]).name,
                states@.list[i].light,
            ) by {
                lemma_lit_by_all(entries@, map, states@.list[i].name, states@.list[i].light);
            }
        }
        states
    }

    /// What is to be remembered of the monitors.
    pub fn cached_state(&self) -> (cached: CachedState)
        requires
            self.wf(),
        ensures
            cached.active_monitor == self@.active,
            self@.kept_in(cached.states()),
    {
        let mut map: FnvHashMap<String, BrightnessStateInternal> = empty_states();
        let mut i: usize = 0;
        while i < self.available_adapter_list.len()
            invariant
                0 <= i <= self.available_adapter_list@.len(),
                self.wf(),
                (Screens { list: self@.list.take(i as int), ..self@ }).kept_in(remembered(map)),
            decreases self.available_adapter_list@.len() - i,
        {
            let ghost part = Screens { list: self@.list.take(i as int), ..self@ };
            let ghost next = Screens { list: self@.list.take(i + 1), ..self@ };
            let ghost states = remembered(map);
            let state: &MonitorState = &self.available_adapter_list[i];
            let light: &BrightnessState = state.get_brightness_state();
            insert_state(
                &mut map,
                state.get_monitor_name().clone(),
                BrightnessStateInternal { brightness: light.get(), nightlight: light.nightlight.get() },
            );
            proof {
                self.lemma_sound();
                assert(self@.list[i as int] == state@);
                assert forall|j: int| 0 <= j < next.list.len() implies remembered(map).contains_key(
                    (#[trigger] next.list[j]).name,
                ) && remembered(map)[next.list[j].name] == (BrightnessStateInternal {
                    brightness: next.list[j].light.level,
                    nightlight: next.list[j].light.nightlight,
                }) by {
                    if j < i {
                        assert(next.list[j] == part.list[j]);
                        assert(ascii_lower(self@.list[j].name) != ascii_lower(
                            self@.list[i as int].name,
                        ));
                    }
                }
                assert forall|key: Seq<char>| #[trigger]
                    remembered(map).contains_key(key) implies exists|j: int|
                    0 <= j < next.list.len() && (#[trigger] next.list[j]).name == key by {
                    if key == state@.name {
                        assert(next.list[i as int].name == key);
                    } else {
                        assert(states.contains_key(key));
                        let j = choose|j: int|
                            0 <= j < part.list.len() && (#[trigger] part.list[j]).name == key;
                        assert(next.list[j].name == key);
                    }
                }
            }
            i += 1;
        }
        assert(self@.list.take(i as int) =~= self@.list);
        CachedState { brightness_states: map, active_monitor: self.active_monitor }
    }
}

/// Whether a light is what the first entries of a list, one after the other, have
/// made of it.
spec fn lit_by(
    entries: Seq<(String, BrightnessStateInternal)>,
    count: int,
    name: Seq<char>,
    light: Light,
) -> bool {
    ||| exists|k: int|
        0 <= k < count && ascii_lower((#[trigger] entries[k]).0@) == ascii_lower(name) && light
            == fresh_light(entries[k].1.brightness, entries[k].1.nightlight)
    ||| (light == fresh_light(percent_level(100), false) && forall|k: int|
        0 <= k < count ==> ascii_lower((#[trigger] entries[k]).0@) != ascii_lower(name))
}

/// An entry of another name changes nothing.
proof fn lemma_lit_by_next(
    entries: Seq<(String, BrightnessStateInternal)>,
    count: int,
    name: Seq<char>,
    light: Light,
)
    requires
        0 <= count < entries.len(),
        lit_by(entries, count, name, light),
        ascii_lower(entries[count].0@) != ascii_lower(name),
    ensures
        lit_by(entries, count + 1, name, light),
{
    if exists|k: int|
        0 <= k < count && ascii_lower((#[trigger] entries[k]).0@) == ascii_lower(name) && light
            == fresh_light(entries[k].1.brightness, entries[k].1.nightlight) {
        let k = choose|k: int|
            0 <= k < count && ascii_lower((#[trigger] entries[k]).0@) == ascii_lower(name) && light
                == fresh_light(entries[k].1.brightness, entries[k].1.nightlight);
        assert(0 <= k < count + 1 && ascii_lower(entries[k].0@) == ascii_lower(name));
    }
}

/// All entries together restore what is remembered.
proof fn lemma_lit_by_all(
    entries: Seq<(String, BrightnessStateInternal)>,
    states: Map<Seq<char>, BrightnessStateInternal>,
    name: Seq<char>,
    light: Light,
)
    requires
        lists_entries(entries, states),
        lit_by(entries, entries.len() as int, name, light),
    ensures
        restored(states, name, light),
{
    if exists|k: int|
        0 <= k < entries.len() && ascii_lower((#[trigger] entries[k]).0@) == ascii_lower(name)
            && light == fresh_light(entries[k].1.brightness, entries[k].1.nightlight) {
        let k = choose|k: int|
            0 <= k < entries.len() && ascii_lower((#[trigger] entries[k]).0@) == ascii_lower(name)
                && light == fresh_light(entries[k].1.brightness, entries[k].1.nightlight);
        let key = entries[k].0@;
        assert(states.contains_key(key) && states[key] == entries[k].1);
    } else if is_remembered(states, name) {
        let key = choose|key: Seq<char>| #[trigger]
            states.contains_key(key) && ascii_lower(key) == ascii_lower(name);
        let k = choose|k: int| 0 <= k < entries.len() && (#[trigger] entries[k]).0@ == key;
        assert(ascii_lower(entries[k].0@) == ascii_lower(name));
    }
}

/// What was kept of the monitors at the end of one run gives each of them the same
/// brightness and nightlight at the beginning of the next.
pub proof fn law_light_survives_restart(
    before: Screens,
    states: Map<Seq<char>, BrightnessStateInternal>,
    listed: Screens,
    after: Screens,
    i: int,
    j: int,
)
    requires
        before.is_sound(),
        before.kept_in(states),
        after.restored_from(listed, states),
        0 <= i < before.list.len(),
        0 <= j < after.list.len(),
        ascii_lower(before.list[i].name) == ascii_lower(after.list[j].name),
    ensures
        after.list[j].light.level == before.list[i].light.level,
        after.list[j].light.nightlight == before.list[i].light.nightlight,
{
    let name = after.list[j].name;
    assert(restored(states, name, after.list[j].light));
    assert(states.contains_key(before.list[i].name));
    let key = choose|key: Seq<char>| #[trigger]
        states.contains_key(key) && ascii_lower(key) == ascii_lower(name) && after.list[j].light
            == fresh_light(states[key].brightness, states[key].nightlight);
    let k = choose|k: int| 0 <= k < before.list.len() && (#[trigger] before.list[k]).name == key;
    lemma_position_is(before, k, name);
    lemma_position_is(before, i, name);
}

// ---------------------------------------------------------------------------
// lights
// ---------------------------------------------------------------------------

impl CollectiveMonitorStateInternal {
    /// Takes hold of the brightness of a monitor, unless it is held already.
    pub fn try_hold(&mut self, index: usize) -> (taken: bool)
        requires
            old(self).wf(),
            index < old(self)@.list.len(),
        ensures
            final(self).wf(),
            taken == !old(self)@.list[index as int].light.held,
            final(self)@ == old(self)@.relit(
                index as int,
                Light { held: true, ..old(self)@.list[index as int].light },
            ),
    {
        let taken: bool = self.available_adapter_list[index].brightness_state.brightness.try_hold();
        assert(self@ =~= old(self)@.relit(
            index as int,
            Light { held: true, ..old(self)@.list[index as int].light },
        ));
        taken
    }

    /// Lets go of the brightness of a monitor.
    pub fn release(&mut self, index: usize)
        requires
            old(self).wf(),
            index < old(self)@.list.len(),
        ensures
            final(self).wf(),
            final(self)@ == old(self)@.relit(
                index as int,
                Light { held: false, ..old(self)@.list[index as int].light },
            ),
    {
        self.available_adapter_list[index].brightness_state.brightness.unlock();
        assert(self@ =~= old(self)@.relit(
            index as int,
            Light { held: false, ..old(self)@.list[index as int].light },
        ));
    }

    /// Sets the brightness of a monitor that is held.
    pub fn set_level(&mut self, index: usize, level: Level)
        requires
            old(self).wf(),
            index < old(self)@.list.len(),
            old(self)@.list[index as int].light.held,
        ensures
            final(self).wf(),
            final(self)@ == old(self)@.relit(
                index as int,
                Light { level, ..old(self)@.list[index as int].light },
            ),
    {
        self.available_adapter_list[index].brightness_state.brightness.held().set(level);
        assert(self@ =~= old(self)@.relit(
            index as int,
            Light { level, ..old(self)@.list[index as int].light },
        ));
    }

    /// Notes whether a fade is running on a monitor.
    pub fn set_fading(&mut self, index: usize, is_fading: bool)
        requires
            old(self).wf(),
            index < old(self)@.list.len(),
        ensures
            final(self).wf(),
            final(self)@ == old(self)@.relit(
                index as int,
                Light { is_fading, ..old(self)@.list[index as int].light },
            ),
    {
        self.available_adapter_list[index].brightness_state.is_fading = is_fading;
        assert(self@ =~= old(self)@.relit(
            index as int,
            Light { is_fading, ..old(self)@.list[index as int].light },
        ));
    }

    /// Hands a request to whoever holds the brightness of a monitor.
    pub fn forward(&mut self, index: usize, input: ForwardedBrightnessInput)
        requires
            old(self).wf(),
            index < old(self)@.list.len(),
        ensures
            final(self).wf(),
            final(self)@ == old(self)@.relit(
                index as int,
                Light {
                    inbox: old(self)@.list[index as int].light.inbox.push(input),
                    ..old(self)@.list[index as int].light
                },
            ),
    {
        self.available_adapter_list[index].brightness_state.forward(input);
        assert(self@ =~= old(self)@.relit(
            index as int,
            Light {
                inbox: old(self)@.list[index as int].light.inbox.push(input),
                ..old(self)@.list[index as int].light
            },
        ));
    }

    /// Takes the oldest of the requests that were handed to the holder of a
    /// monitor's brightness.
    pub fn take_message(&mut self, index: usize) -> (message: Option<ForwardedBrightnessInput>)
        requires
            old(self).wf(),
            index < old(self)@.list.len(),
            old(self)@.list[index as int].light.held,
        ensures
            final(self).wf(),
            ({
                let light = old(self)@.list[index as int].light;
                match message {
                    Some(input) => light.inbox.len() > 0 && input == light.inbox[0] && final(self)@
                        == old(self)@.relit(
                        index as int,
                        Light { inbox: light.inbox.drop_first(), ..light },
                    ),
                    None => light.inbox.len() == 0 && final(self)@ == old(self)@,
                }
            }),
    {
        let message: Option<ForwardedBrightnessInput> =
            self.available_adapter_list[index].brightness_state.brightness.held().mutex_guard.pop_front();
        proof {
            let light = old(self)@.list[index as int].light;
            if message is Some {
                assert(self@ =~= old(self)@.relit(
                    index as int,
                    Light { inbox: light.inbox.drop_first(), ..light },
                ));
            } else {
                assert(self@ =~= old(self)@);
            }
        }
        message
    }

    /// Takes hold of the nightlight of a monitor, unless it is held already.
    pub fn try_hold_nightlight(&mut self, index: usize) -> (taken: bool)
        requires
            old(self).wf(),
            index < old(self)@.list.len(),
        ensures
            final(self).wf(),
            taken == !old(self)@.list[index as int].light.nightlight_held,
            final(self)@ == old(self)@.relit(
                index as int,
                Light { nightlight_held: true, ..old(self)@.list[index as int].light },
            ),
    {
        let taken: bool = self.available_adapter_list[index].brightness_state.nightlight.try_hold();
        assert(self@ =~= old(self)@.relit(
            index as int,
            Light { nightlight_held: true, ..old(self)@.list[index as int].light },
        ));
        taken
    }

    /// Switches the nightlight of a monitor, which is held, over. Says whether it
    /// is on now.
    pub fn flip_nightlight(&mut self, index: usize) -> (on: bool)
        requires
            old(self).wf(),
            index < old(self)@.list.len(),
            old(self)@.list[index as int].light.nightlight_held,
        ensures
            final(self).wf(),
            on == !old(self)@.list[index as int].light.nightlight,
            final(self)@ == old(self)@.relit(
                index as int,
                Light { nightlight: on, ..old(self)@.list[index as int].light },
            ),
    {
        let on: bool = !self.available_adapter_list[index].brightness_state.nightlight.get();
        self.available_adapter_list[index].brightness_state.nightlight.held().set(on);
        assert(self@ =~= old(self)@.relit(
            index as int,
            Light { nightlight: on, ..old(self)@.list[index as int].light },
        ));
        on
    }

    /// Lets go of the nightlight of a monitor.
    pub fn release_nightlight(&mut self, index: usize)
        requires
            old(self).wf(),
            index < old(self)@.list.len(),
        ensures
            final(self).wf(),
            final(self)@ == old(self)@.relit(
                index as int,
                Light { nightlight_held: false, ..old(self)@.list[index as int].light },
            ),
    {
        self.available_adapter_list[index].brightness_state.nightlight.unlock();
        assert(self@ =~= old(self)@.relit(
            index as int,
            Light { nightlight_held: false, ..old(self)@.list[index as int].light },
        ));
    }
}

// ---------------------------------------------------------------------------
// what is shown to the user
// ---------------------------------------------------------------------------

impl Screens {
    /// The positions that an optional choice of monitors stands for: all of them
    /// if there is no choice.
    pub open spec fn matched(self, monitor_override: Option<&MonitorOverride>) -> Seq<usize> {
        match monitor_override {
            Some(monitors) => self.chosen(*monitors),
            None => self.chosen(MonitorOverride::All),
        }
    }

    /// The names of some monitors with spaces between them.
    pub open spec fn names_text(self, indices: Seq<usize>) -> Seq<char> {
        joined(Seq::new(indices.len(), |k: int| self.list[indices[k] as int].name), " "@)
    }

    /// One line for each of some monitors: its name and what there is to be shown
    /// of it.
    pub open spec fn states_text(self, indices: Seq<usize>, shown: Seq<Seq<char>>) -> Seq<char> {
        joined(
            Seq::new(
                indices.len(),
                |k: int| self.list[indices[k] as int].name + ": "@ + shown[indices[k] as int],
            ),
            "\n"@,
        )
    }

    /// Whether there is a monitor at each of some positions.
    pub open spec fn has_all(self, indices: Seq<usize>) -> bool {
        forall|k: int| 0 <= k < indices.len() ==> (#[trigger] indices[k]) < self.list.len()
    }
}

/// Names are found where they were found before as long as the names stay.
proof fn lemma_position_by_names(list: Seq<Screen>, other: Seq<Screen>, name: Seq<char>)
    requires
        list.len() == other.len(),
        forall|i: int| 0 <= i < list.len() ==> (#[trigger] list[i]).name == other[i].name,
    ensures
        position(list, name) == position(other, name),
    decreases list.len(),
{
    if list.len() > 0 {
        lemma_position_by_names(list.drop_last(), other.drop_last(), name);
        assert(list[list.len() - 1].name == other[list.len() - 1].name);
    }
}

/// Which monitors are chosen depends on no light.
pub proof fn lemma_chosen_by_names(screens: Screens, after: Screens, monitors: MonitorOverride)
    requires
        after.list.len() == screens.list.len(),
        after.enabled == screens.enabled,
        after.named == screens.named,
        after.active == screens.active,
        forall|i: int|
            0 <= i < screens.list.len() ==> (#[trigger] screens.list[i]).name == after.list[i].name,
    ensures
        after.chosen(monitors) == screens.chosen(monitors),
{
    match monitors {
        MonitorOverride::All => {
            assert(after.chosen(monitors) =~= screens.chosen(monitors));
        },
        MonitorOverride::Specified { adapter_name } => {
            lemma_position_by_names(screens.list, after.list, adapter_name@);
        },
        _ => {},
    }
}

/// The positions that a choice stands for are those of monitors, unless it is the
/// active one that is chosen and there is none.
pub proof fn lemma_chosen_exist(screens: Screens, monitors: MonitorOverride)
    requires
        screens.is_sound(),
        monitors is Active ==> screens.has_active(),
    ensures
        screens.has_all(screens.chosen(monitors)),
{
    lemma_ascending(screens.enabled, screens.list.len());
    match monitors {
        MonitorOverride::Specified { adapter_name } => {
            lemma_position(screens.list, adapter_name@);
        },
        _ => {},
    }
}

/// All monitors that the daemon knows, as the requests of clients see them.
pub struct CollectiveMonitorState {
    pub monitor_states: CollectiveMonitorStateInternal,
}

impl CollectiveMonitorState {
    /// The monitors of a list of displays, each with the light that is remembered
    /// of it.
    pub fn new(
        active_monitor: usize,
        brightness_states: FnvHashMap<String, BrightnessStateInternal>,
        displays: Vec<(Monitor, bool)>,
    ) -> (state: CollectiveMonitorState)
        ensures
            state.monitor_states.wf(),
            state.monitor_states@.restored_from(
                no_screens(active_monitor).overwritten(as_displays(displays@)),
                remembered(brightness_states),
            ),
    {
        CollectiveMonitorState {
            monitor_states: CollectiveMonitorStateInternal::new(
                active_monitor,
                brightness_states,
                displays,
            ),
        }
    }

    /// The monitors, to look at.
    pub fn read(&self) -> (states: &CollectiveMonitorStateInternal)
        ensures
            *states == self.monitor_states,
    {
        &self.monitor_states
    }

    /// The monitors, to work on.
    pub fn write(&mut self) -> (states: &mut CollectiveMonitorStateInternal)
        ensures
            *states == old(self).monitor_states,
            *final(self) == (CollectiveMonitorState { monitor_states: *final(states) }),
    {
        &mut self.monitor_states
    }

    /// The positions of the monitors that an optional choice stands for.
    fn matching_indices(&self, monitor_override: Option<&MonitorOverride>) -> (indices: Vec<usize>)
        requires
            self.monitor_states.wf(),
            monitor_override == Some(&MonitorOverride::Active)
                ==> self.monitor_states@.has_active(),
        ensures
            indices@ == self.monitor_states@.matched(monitor_override),
            self.monitor_states@.has_all(indices@),
    {
        proof {
            self.monitor_states.lemma_sound();
        }
        match monitor_override {
            Some(monitors) => {
                proof {
                    lemma_chosen_exist(self.monitor_states@, *monitors);
                }
                self.monitor_states.get_monitor_override_indices(monitors)
            },
            None => {
                proof {
                    lemma_chosen_exist(self.monitor_states@, MonitorOverride::All);
                }
                self.monitor_states.iter_all_monitor_indices()
            },
        }
    }

    /// The names of the monitors that match, with spaces between them.
    pub fn get_formatted_display_names(&self, monitor_override: Option<&MonitorOverride>) -> (text:
        String)
        requires
            self.monitor_states.wf(),
            monitor_override == Some(&MonitorOverride::Active)
                ==> self.monitor_states@.has_active(),
        ensures
            text@ == self.monitor_states@.names_text(
                self.monitor_states@.matched(monitor_override),
            ),
    {
        let indices: Vec<usize> = self.matching_indices(monitor_override);
        let mut names: Vec<String> = Vec::new();
        let mut k: usize = 0;
        while k < indices.len()
            invariant
                0 <= k <= indices@.len(),
                self.monitor_states@.has_all(indices@),
                names@.len() == k,
                forall|j: int|
                    0 <= j < k ==> (#[trigger] names@[j])@
                        == self.monitor_states@.list[indices@[j] as int].name,
            decreases indices@.len() - k,
        {
            assert(indices@[k as int] < self.monitor_states@.list.len());
            names.push(
                self.monitor_states.available_adapter_list[indices[k]].get_monitor_name().clone(),
            );
            k += 1;
        }
        assert(texts(names@) =~= Seq::new(
            indices@.len(),
            |j: int| self.monitor_states@.list[indices@[j] as int].name,
        ));
        join(&names, " ")
    }

    /// One line for each monitor that matches: its name and its brightness.
    /// `levels` holds the brightness of every monitor in writing.
    pub fn get_formatted_display_states(
        &self,
        monitor_override: Option<&MonitorOverride>,
        levels: &Vec<String>,
    ) -> (text: String)
        requires
            self.monitor_states.wf(),
            levels@.len() == self.monitor_states@.list.len(),
            monitor_override == Some(&MonitorOverride::Active)
                ==> self.monitor_states@.has_active(),
        ensures
            text@ == self.monitor_states@.states_text(
                self.monitor_states@.matched(monitor_override),
                texts(levels@),
            ),
    {
        self.get_formatted_display_states_with_format(monitor_override, levels)
    }

    /// One line for each monitor that matches: its name and what is to be shown of
    /// it. `shown` holds what is to be shown of every monitor.
    pub fn get_formatted_display_states_with_format(
        &self,
        monitor_override: Option<&MonitorOverride>,
        shown: &Vec<String>,
    ) -> (text: String)
        requires
            self.monitor_states.wf(),
            shown@.len() == self.monitor_states@.list.len(),
            monitor_override == Some(&MonitorOverride::Active)
                ==> self.monitor_states@.has_active(),
        ensures
            text@ == self.monitor_states@.states_text(
                self.monitor_states@.matched(monitor_override),
                texts(shown@),
            ),
    {
        let indices: Vec<usize> = self.matching_indices(monitor_override);
        let mut lines: Vec<String> = Vec::new();
        let mut k: usize = 0;
        while k < indices.len()
            invariant
                0 <= k <= indices@.len(),
                self.monitor_states@.has_all(indices@),
                shown@.len() == self.monitor_states@.list.len(),
                lines@.len() == k,
                forall|j: int|
                    0 <= j < k ==> (#[trigger] lines@[j])@
                        == self.monitor_states@.list[indices@[j] as int].name + ": "@ + texts(
                        shown@,
                    )[indices@[j] as int],
            decreases indices@.len() - k,
        {
            assert(indices@[k as int] < self.monitor_states@.list.len());
            let index: usize = indices[k];
            let state: &MonitorState = &self.monitor_states.available_adapter_list[index];
            lines.push(
                concat3(state.get_monitor_name().as_str(), ": ", shown[index].as_str()),
            );
            k += 1;
        }
        assert(texts(lines@) =~= Seq::new(
            indices@.len(),
            |j: int|
                self.monitor_states@.list[indices@[j] as int].name + ": "@ + texts(
                    shown@,
                )[indices@[j] as int],
        ));
        join(&lines, "\n")
    }
}

} // verus!
