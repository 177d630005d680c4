//! Making changes of brightness, at once or step by step.
use std::collections::VecDeque;
use vstd::prelude::*;

use crate::daemon::config::persistent::DaemonOptions;
use crate::daemon::config::runtime::{ForwardedBrightnessInput, Light};
use crate::daemon::engine::brightness::{
    change_indices, change_notes, fault_notes, holds, indices_of, levels_for, note_fading,
    queue_changes, queue_fault, set_levels, target_levels, with_fading, with_levels,
    BrightnessTask, Change, Measurement, Refresh,
};
use crate::daemon::engine::change_laws::law_given_levels_are_set;
use crate::daemon::engine::commands::{
    after_refresh, finish_refresh, monitors_for, refresh_fault, start_result, CommandOutcome,
};
use crate::daemon::engine::display::{CollectiveMonitorStateInternal, Screens};
use crate::daemon::util::io::{Note, Reply, SocketMessageHolder};
use crate::level::{law_percent_level_exact, Level};
use crate::shared::BrightnessInput;

verus! {

// ---------------------------------------------------------------------------
// what to fade and what to change at once
// ---------------------------------------------------------------------------

/// Whether a change is faded into: never on a monitor that is not connected,
/// otherwise as the request says, and if it does not say, if the change is larger
/// than the threshold.
pub open spec fn fades(
    change: Change,
    shift: u8,
    input: BrightnessInput,
    screens: Screens,
    config: DaemonOptions,
) -> bool {
    screens.enabled.contains(change.index) && match input.override_fade {
        Some(fade) => fade,
        None => shift > config.fade_options.threshold,
    }
}

/// Those of some changes that are faded into, or those that are not.
pub open spec fn faded_part(
    changes: Seq<Change>,
    shifts: Seq<u8>,
    input: BrightnessInput,
    screens: Screens,
    config: DaemonOptions,
    faded: bool,
) -> Seq<Change>
    decreases changes.len(),
{
    if changes.len() == 0 {
        Seq::empty()
    } else {
        let before = faded_part(changes.drop_last(), shifts, input, screens, config, faded);
        if fades(changes.last(), shifts[changes.len() - 1], input, screens, config) == faded {
            before.push(changes.last())
        } else {
            before
        }
    }
}

/// The positions of those of the monitors to be changed that are connected.
pub open spec fn connected_part(changes: Seq<Change>, screens: Screens) -> Seq<usize>
    decreases changes.len(),
{
    if changes.len() == 0 {
        Seq::empty()
    } else {
        let before = connected_part(changes.drop_last(), screens);
        if screens.enabled.contains(changes.last().index) {
            before.push(changes.last().index)
        } else {
            before
        }
    }
}

/// How a fade goes.
#[derive(Clone, Copy, Debug, PartialEq, Eq, Structural)]
pub struct FadePlan {
    /// The number of steps.
    pub steps: u32,
    /// Milliseconds between two steps.
    pub step_duration: u32,
    /// Whether to drop the monitors for which the first commands fail.
    pub auto_remove_displays: bool,
}

/// How a fade goes under a configuration.
pub open spec fn plan_of(config: DaemonOptions) -> FadePlan {
    FadePlan {
        steps: config.fade_options.num_steps() as u32,
        step_duration: config.fade_options.step_duration,
        auto_remove_displays: config.auto_remove_displays,
    }
}

/// A task that has made the changes that are made at once and waits for the
/// commands that show them.
pub struct Settlement {
    pub inputs: VecDeque<ForwardedBrightnessInput>,
    pub holder: SocketMessageHolder,
    /// The positions of the monitors whose brightness the task holds.
    pub held: Vec<usize>,
    /// The changes that were made.
    pub settled: Vec<Change>,
    /// The position of the monitor that each of the commands is for.
    pub refreshed: Vec<usize>,
    /// The changes that are to be faded into.
    pub fading: Vec<Change>,
    pub plan: FadePlan,
}

/// Every one of some changes is one of a larger list.
proof fn lemma_faded_part_indices(
    changes: Seq<Change>,
    shifts: Seq<u8>,
    input: BrightnessInput,
    screens: Screens,
    config: DaemonOptions,
    faded: bool,
)
    requires
        holds(screens, indices_of(changes)),
    ensures
        holds(
            screens,
            indices_of(faded_part(changes, shifts, input, screens, config, faded)),
        ),
    decreases changes.len(),
{
    if changes.len() > 0 {
        let front = changes.drop_last();
        assert forall|k: int| 0 <= k < indices_of(front).len() implies (
        #[trigger] indices_of(front)[k]) < screens.list.len() && screens.list[indices_of(
            front,
        )[k] as int].light.held by {
            assert(indices_of(front)[k] == indices_of(changes)[k]);
        }
        lemma_faded_part_indices(front, shifts, input, screens, config, faded);
        let before = faded_part(front, shifts, input, screens, config, faded);
        let part = faded_part(changes, shifts, input, screens, config, faded);
        assert(indices_of(changes)[changes.len() - 1] == changes.last().index);
        assert forall|k: int| 0 <= k < indices_of(part).len() implies (
        #[trigger] indices_of(part)[k]) < screens.list.len() && screens.list[indices_of(
            part,
        )[k] as int].light.held by {
            if k < before.len() {
                assert(indices_of(part)[k] == indices_of(before)[k]);
            }
        }
    }
}

proof fn lemma_connected_part_exists(changes: Seq<Change>, screens: Screens)
    requires
        screens.has_all(indices_of(changes)),
    ensures
        screens.has_all(connected_part(changes, screens)),
    decreases changes.len(),
{
    if changes.len() > 0 {
        let front = changes.drop_last();
        assert forall|k: int| 0 <= k < indices_of(front).len() implies (
        #[trigger] indices_of(front)[k]) < screens.list.len() by {
            assert(indices_of(front)[k] == indices_of(changes)[k]);
        }
        lemma_connected_part_exists(front, screens);
        assert(indices_of(changes)[changes.len() - 1] == changes.last().index);
    }
}

fn connected_indices(changes: &Vec<Change>, states: &CollectiveMonitorStateInternal) -> (indices:
    Vec<usize>)
    ensures
        indices@ == connected_part(changes@, states@),
{
    let mut indices: Vec<usize> = Vec::new();
    let mut k: usize = 0;
    assert(changes@.take(0).len() == 0);
    while k < changes.len()
        invariant
            0 <= k <= changes@.len(),
            indices@ == connected_part(changes@.take(k as int), states@),
        decreases changes@.len() - k,
    {
        assert(changes@.take(k + 1).drop_last() =~= changes@.take(k as int));
        assert(changes@.take(k + 1).last() == changes@[k as int]);
        if states.is_monitor_index_enabled(changes[k].index) {
            indices.push(changes[k].index);
        }
        k += 1;
    }
    assert(changes@.take(k as int) =~= changes@);
    indices
}

impl Measurement {
    /// The changes that are made at once, given how large the changes are.
    pub open spec fn at_once(self, shifts: Seq<u8>, screens: Screens, config: DaemonOptions) -> Seq<
        Change,
    > {
        faded_part(self.changes@, shifts, self.input, screens, config, false)
    }

    /// The changes that are faded into, given how large the changes are.
    pub open spec fn gradual(self, shifts: Seq<u8>, screens: Screens, config: DaemonOptions) -> Seq<
        Change,
    > {
        faded_part(self.changes@, shifts, self.input, screens, config, true)
    }

    /// Whether one of the changes is faded into, given how large the changes are.
    pub fn needs_fade(
        &self,
        states: &CollectiveMonitorStateInternal,
        config: &DaemonOptions,
        shifts: &Vec<u8>,
    ) -> (needed: bool)
        requires
            shifts@.len() == self.changes@.len(),
        ensures
            needed == (self.gradual(shifts@, states@, *config).len() > 0),
    {
        let mut k: usize = 0;
        assert(self.changes@.take(0).len() == 0);
        while k < self.changes.len()
            invariant
                0 <= k <= self.changes@.len(),
                shifts@.len() == self.changes@.len(),
                faded_part(
                    self.changes@.take(k as int),
                    shifts@,
                    self.input,
                    states@,
                    *config,
                    true,
                ).len() == 0,
            decreases self.changes@.len() - k,
        {
            assert(self.changes@.take(k + 1).drop_last() =~= self.changes@.take(k as int));
            assert(self.changes@.take(k + 1).last() == self.changes@[k as int]);
            if self.is_faded(k, states, config, shifts) {
                proof {
                    lemma_faded_part_grows(
                        self.changes@,
                        shifts@,
                        self.input,
                        states@,
                        *config,
                        true,
                        k + 1,
                    );
                }
                return true;
            }
            k += 1;
        }
        assert(self.changes@.take(k as int) =~= self.changes@);
        false
    }

    fn is_faded(
        &self,
        k: usize,
        states: &CollectiveMonitorStateInternal,
        config: &DaemonOptions,
        shifts: &Vec<u8>,
    ) -> (faded: bool)
        requires
            k < self.changes@.len() == shifts@.len(),
        ensures
            faded == fades(
                self.changes@[k as int],
                shifts@[k as int],
                self.input,
                states@,
                *config,
            ),
    {
        states.is_monitor_index_enabled(self.changes[k].index) && match self.input.override_fade {
            Some(fade) => fade,
            None => shifts[k] > config.fade_options.threshold,
        }
    }

    /// What making the changes comes to, given how large they are, and what it makes
    /// of the monitors.
    pub open spec fn leads_to(
        self,
        settlement: Settlement,
        refresh: Refresh,
        shifts: Seq<u8>,
        screens: Screens,
        after: Screens,
        config: DaemonOptions,
    ) -> bool {
        let settled = self.at_once(shifts, screens, config);
        let shown = connected_part(settled, screens);
        &&& settlement.inputs == self.inputs
        &&& settlement.holder == self.holder
        &&& settlement.held@ == indices_of(self.changes@)
        &&& settlement.settled@ == settled
        &&& settlement.fading@ == self.gradual(shifts, screens, config)
        &&& settlement.refreshed@ == monitors_for(shown, config)
        &&& settlement.plan == plan_of(config)
        &&& after == with_levels(screens, indices_of(settled), target_levels(settled))
        &&& refresh.shows(shown, after, config, config.auto_remove_displays)
    }

    /// Makes the changes that are made at once. `shifts` says of each change how
    /// large it is, in whole per cent.
    pub fn measured(
        self,
        states: &mut CollectiveMonitorStateInternal,
        config: &DaemonOptions,
        shifts: &Vec<u8>,
    ) -> (next: (Settlement, Refresh))
        requires
            old(states).wf(),
            self.wf(old(states)@),
            shifts@.len() == self.changes@.len(),
            config.fade_options.step_duration > 0,
            self.gradual(shifts@, old(states)@, *config).len() > 0
                ==> config.fade_options.has_steps(),
        ensures
            final(states).wf(),
            next.0.wf(final(states)@),
            self.leads_to(next.0, next.1, shifts@, old(states)@, final(states)@, *config),
    {
        let ghost screens = states@;
        let mut settled: Vec<Change> = Vec::new();
        let mut fading: Vec<Change> = Vec::new();
        let mut k: usize = 0;
        assert(self.changes@.take(0).len() == 0);
        while k < self.changes.len()
            invariant
                0 <= k <= self.changes@.len(),
                shifts@.len() == self.changes@.len(),
                settled@ == faded_part(
                    self.changes@.take(k as int),
                    shifts@,
                    self.input,
                    states@,
                    *config,
                    false,
                ),
                fading@ == faded_part(
                    self.changes@.take(k as int),
                    shifts@,
                    self.input,
                    states@,
                    *config,
                    true,
                ),
            decreases self.changes@.len() - k,
        {
            assert(self.changes@.take(k + 1).drop_last() =~= self.changes@.take(k as int));
            assert(self.changes@.take(k + 1).last() == self.changes@[k as int]);
            if self.is_faded(k, states, config, shifts) {
                fading.push(self.changes[k]);
            } else {
                settled.push(self.changes[k]);
            }
            k += 1;
        }
        assert(self.changes@.take(k as int) =~= self.changes@);
        proof {
            lemma_faded_part_indices(
                self.changes@,
                shifts@,
                self.input,
                screens,
                *config,
                false,
            );
            lemma_faded_part_indices(self.changes@, shifts@, self.input, screens, *config, true);
        }
        let steps: u32 = config.fade_options.total_duration / config.fade_options.step_duration;
        let held: Vec<usize> = change_indices(&self.changes);
        let settled_indices: Vec<usize> = change_indices(&settled);
        let levels: Vec<Level> = levels_for(&settled);
        let monitors: Vec<usize> = connected_indices(&settled, states);
        set_levels(states, &settled_indices, &levels);
        proof {
            lemma_connected_part_exists(settled@, screens);
            if fading@.len() > 0 {
                lemma_at_least_one_step(
                    config.fade_options.total_duration as int,
                    config.fade_options.step_duration as int,
                );
            }
        }
        let refresh: Refresh = Refresh::new(states, config, &monitors, config.auto_remove_displays);
        let refreshed: Vec<usize> = refresh.commanded();
        let plan = FadePlan {
            steps,
            step_duration: config.fade_options.step_duration,
            auto_remove_displays: config.auto_remove_displays,
        };
        (
            Settlement {
                inputs: self.inputs,
                holder: self.holder,
                held,
                settled,
                refreshed,
                fading,
                plan,
            },
            refresh,
        )
    }
}

proof fn lemma_at_least_one_step(total: int, step: int)
    requires
        0 < step <= total,
    ensures
        total / step >= 1,
{
    vstd::arithmetic::div_mod::lemma_div_is_ordered(step, total, step);
    vstd::arithmetic::div_mod::lemma_div_by_self(step);
}

proof fn lemma_faded_part_grows(
    changes: Seq<Change>,
    shifts: Seq<u8>,
    input: BrightnessInput,
    screens: Screens,
    config: DaemonOptions,
    faded: bool,
    k: int,
)
    requires
        0 <= k <= changes.len(),
    ensures
        faded_part(changes.take(k), shifts, input, screens, config, faded).len() <= faded_part(
            changes,
            shifts,
            input,
            screens,
            config,
            faded,
        ).len(),
    decreases changes.len() - k,
{
    if k < changes.len() {
        assert(changes.take(k + 1).drop_last() =~= changes.take(k));
        lemma_faded_part_grows(changes, shifts, input, screens, config, faded, k + 1);
    } else {
        assert(changes.take(k) =~= changes);
    }
}

impl Settlement {
    /// Whether the task holds what it says that it holds, and can fade if it has
    /// to.
    pub open spec fn wf(self, screens: Screens) -> bool {
        &&& holds(screens, self.held@)
        &&& holds(screens, indices_of(self.fading@))
        &&& screens.has_all(indices_of(self.settled@))
        &&& self.fading@.len() > 0 ==> self.plan.steps > 0
    }
}

// ---------------------------------------------------------------------------
// behind the changes that are made at once
// ---------------------------------------------------------------------------

/// What comes behind the changes that are made at once.
pub enum Settled {
    /// The request is carried out: this is the answer.
    Respond { reply: Reply, task: BrightnessTask },
    /// A fade begins, with these commands.
    Begin { fade: Fade, refresh: Refresh },
}

/// What there is to say behind the changes that are made at once.
pub open spec fn settled_notes(
    settled: Seq<Change>,
    screens: Screens,
    fault: Option<Seq<char>>,
) -> Seq<Note> {
    if fault is Some {
        fault_notes("Failed to refresh brightness: "@, fault)
    } else {
        change_notes(settled, screens)
    }
}

impl Settlement {
    /// What the end of the commands comes to, and what it makes of the monitors.
    pub open spec fn leads_to(
        self,
        next: Settled,
        outcomes: Seq<CommandOutcome>,
        screens: Screens,
        after: Screens,
        config: DaemonOptions,
    ) -> bool {
        let auto_remove = self.plan.auto_remove_displays;
        let kept = after_refresh(screens, self.refreshed@, outcomes, auto_remove);
        let queued = self.holder.queued() + settled_notes(
            self.settled@,
            screens,
            refresh_fault(outcomes, auto_remove),
        );
        match next {
            Settled::Respond { reply, task } => {
                &&& self.fading@.len() == 0
                &&& reply.tells(self.holder.socket, queued)
                &&& task == (BrightnessTask { inputs: self.inputs, held: self.held })
                &&& after == kept
            },
            Settled::Begin { fade, refresh } => {
                &&& self.fading@.len() > 0
                &&& fade.inputs == self.inputs
                &&& fade.held == self.held
                &&& fade.fading == self.fading
                &&& fade.commanded@ == monitors_for(indices_of(self.fading@), config)
                &&& fade.plan == self.plan
                &&& fade.steps_left == self.plan.steps - 1
                &&& fade.holder.socket == self.holder.socket
                &&& fade.holder.queued() == queued
                &&& after == with_fading(kept, indices_of(self.fading@), true)
                &&& refresh.shows(indices_of(self.fading@), after, config, auto_remove)
            },
        }
    }

    /// Goes on when the commands that show the changes were run.
    pub fn refreshed(
        self,
        states: &mut CollectiveMonitorStateInternal,
        config: &DaemonOptions,
        outcomes: &Vec<CommandOutcome>,
    ) -> (next: Settled)
        requires
            old(states).wf(),
            self.wf(old(states)@),
            outcomes@.len() <= self.refreshed@.len(),
        ensures
            final(states).wf(),
            self.leads_to(next, outcomes@, old(states)@, final(states)@, *config),
            match next {
                Settled::Respond { task, .. } => task.wf(final(states)@),
                Settled::Begin { fade, .. } => fade.wf(final(states)@),
            },
    {
        let done: Result<bool, String> = finish_refresh(
            states,
            &self.refreshed,
            outcomes,
            self.plan.auto_remove_displays,
        );
        let mut holder: SocketMessageHolder = self.holder;
        let ran: bool = queue_fault(&mut holder, "Failed to refresh brightness: ", done);
        if ran {
            assert(holder.queued() =~= self.holder.queued());
            queue_changes(&mut holder, states, &self.settled);
            assert(change_notes(self.settled@, states@) =~= change_notes(
                self.settled@,
                old(states)@,
            ));
        }
        if self.fading.len() == 0 {
            Settled::Respond {
                reply: holder.consume(),
                task: BrightnessTask { inputs: self.inputs, held: self.held },
            }
        } else {
            let indices: Vec<usize> = change_indices(&self.fading);
            assert(holds(states@, indices_of(self.fading@)));
            note_fading(states, &indices, true);
            assert(holds(states@, indices_of(self.fading@)));
            assert(holds(states@, self.held@));
            let refresh: Refresh = Refresh::new(
                states,
                config,
                &indices,
                self.plan.auto_remove_displays,
            );
            let commanded: Vec<usize> = refresh.commanded();
            let fade = Fade {
                inputs: self.inputs,
                holder,
                held: self.held,
                fading: self.fading,
                commanded,
                plan: self.plan,
                steps_left: self.plan.steps - 1,
            };
            Settled::Begin { fade, refresh }
        }
    }
}

// ---------------------------------------------------------------------------
// fading
// ---------------------------------------------------------------------------

/// A task that fades the brightness of some monitors.
pub struct Fade {
    pub inputs: VecDeque<ForwardedBrightnessInput>,
    pub holder: SocketMessageHolder,
    /// The positions of the monitors whose brightness the task holds.
    pub held: Vec<usize>,
    /// The changes that are faded into.
    pub fading: Vec<Change>,
    /// The position of the monitor that each of the first commands is for.
    pub commanded: Vec<usize>,
    pub plan: FadePlan,
    /// How many steps there are before the last one, which sets the brightness to
    /// exactly what was asked for.
    pub steps_left: u32,
}

/// How far a fade has come on one monitor.
#[derive(Clone, Copy, Debug, PartialEq, Eq, Structural)]
pub struct Progress {
    /// The brightness when the fade began.
    pub start: Level,
    /// The brightness now.
    pub level: Level,
    /// The brightness, in per cent, that the fade leads to.
    pub target: u8,
    /// The number of steps from the beginning to the end.
    pub steps: u32,
}

/// What comes of looking for requests during a fade.
pub enum Heard {
    /// Nothing has arrived.
    Nothing(Fade),
    /// A request has arrived and waits for the end of the fade.
    Queued(Fade),
    /// A request has arrived that cuts the fade short: this is the answer to the
    /// request that the fade belongs to.
    Interrupted { reply: Reply, task: BrightnessTask },
}

/// The first of the fading monitors for which a request has arrived.
pub open spec fn first_heard(changes: Seq<Change>, screens: Screens) -> Option<int>
    decreases changes.len(),
{
    if changes.len() == 0 {
        None
    } else if first_heard(changes.drop_last(), screens) is Some {
        first_heard(changes.drop_last(), screens)
    } else if screens.list[changes.last().index as int].light.inbox.len() > 0 {
        Some(changes.len() - 1)
    } else {
        None
    }
}

impl Fade {
    /// Whether the task holds what it says that it holds.
    pub open spec fn wf(self, screens: Screens) -> bool {
        &&& holds(screens, self.held@)
        &&& holds(screens, indices_of(self.fading@))
    }

    /// Whether this is the same fade with a fault, if there is one, added to what there
    /// is to say.
    pub open spec fn tells_fault(
        self,
        next: Fade,
        what: Seq<char>,
        fault: Option<Seq<char>>,
    ) -> bool {
        &&& next == (Fade { holder: next.holder, ..self })
        &&& next.holder.socket == self.holder.socket
        &&& next.holder.queued() == self.holder.queued() + fault_notes(what, fault)
    }

    /// Goes on when the commands that belong to the beginning of the fade were run.
    pub fn begun(
        &mut self,
        states: &mut CollectiveMonitorStateInternal,
        outcomes: &Vec<CommandOutcome>,
    )
        requires
            old(states).wf(),
            old(self).wf(old(states)@),
            outcomes@.len() <= old(self).commanded@.len(),
        ensures
            final(states).wf(),
            final(self).wf(final(states)@),
            old(self).tells_fault(
                *final(self),
                "Error refreshing brightness: "@,
                refresh_fault(outcomes@, old(self).plan.auto_remove_displays),
            ),
            final(states)@ == after_refresh(
                old(states)@,
                old(self).commanded@,
                outcomes@,
                old(self).plan.auto_remove_displays,
            ),
    {
        let done: Result<bool, String> = finish_refresh(
            states,
            &self.commanded,
            outcomes,
            self.plan.auto_remove_displays,
        );
        let _ = queue_fault(&mut self.holder, "Error refreshing brightness: ", done);
    }

    /// Whether only the last step is left.
    pub fn is_at_last_step(&self) -> (last: bool)
        ensures
            last == (self.steps_left == 0),
    {
        self.steps_left == 0
    }

    /// How far the fade has come on each of its monitors.
    pub fn progress(&self, states: &CollectiveMonitorStateInternal) -> (list: Vec<Progress>)
        requires
            self.wf(states@),
        ensures
            list@ == Seq::new(
                self.fading@.len(),
                |k: int|
                    Progress {
                        start: self.fading@[k].start,
                        level: states@.list[self.fading@[k].index as int].light.level,
                        target: self.fading@[k].target,
                        steps: self.plan.steps,
                    },
            ),
    {
        let mut list: Vec<Progress> = Vec::new();
        let mut k: usize = 0;
        while k < self.fading.len()
            invariant
                0 <= k <= self.fading@.len(),
                self.wf(states@),
                list@.len() == k,
                forall|j: int|
                    0 <= j < k ==> #[trigger] list@[j] == (Progress {
                        start: self.fading@[j].start,
                        level: states@.list[self.fading@[j].index as int].light.level,
                        target: self.fading@[j].target,
                        steps: self.plan.steps,
                    }),
            decreases self.fading@.len() - k,
        {
            let change: Change = self.fading[k];
            assert(indices_of(self.fading@)[k as int] < states@.list.len());
            list.push(
                Progress {
                    start: change.start,
                    level: states.available_adapter_list[change.index].brightness_state.get(),
                    target: change.target,
                    steps: self.plan.steps,
                },
            );
            k += 1;
        }
        assert(list@ =~= Seq::new(
            self.fading@.len(),
            |j: int|
                Progress {
                    start: self.fading@[j].start,
                    level: states@.list[self.fading@[j].index as int].light.level,
                    target: self.fading@[j].target,
                    steps: self.plan.steps,
                },
        ));
        list
    }

    /// Makes a step that is not the last: each fading monitor gets the level that
    /// the step leads to.
    pub fn advance(
        &self,
        states: &mut CollectiveMonitorStateInternal,
        config: &DaemonOptions,
        levels: &Vec<Level>,
    ) -> (refresh: Refresh)
        requires
            old(states).wf(),
            self.wf(old(states)@),
            self.steps_left > 0,
            levels@.len() == self.fading@.len(),
        ensures
            final(states).wf(),
            self.wf(final(states)@),
            final(states)@ == with_levels(old(states)@, indices_of(self.fading@), levels@),
            indices_of(self.fading@).no_duplicates() ==> forall|k: int|
                0 <= k < self.fading@.len() ==> final(states)@.list[(
                #[trigger] self.fading@[k]).index as int].light.level == levels@[k],
            refresh.shows(indices_of(self.fading@), final(states)@, *config, false),
    {
        let indices: Vec<usize> = change_indices(&self.fading);
        let ghost before = states@;
        set_levels(states, &indices, levels);
        proof {
            if indices@.no_duplicates() {
                assert forall|k: int| 0 <= k < self.fading@.len() implies states@.list[(
                #[trigger] self.fading@[k]).index as int].light.level == levels@[k] by {
                    assert(indices_of(self.fading@)[k] < before.list.len());
                    law_given_levels_are_set(before, indices@, levels@, k);
                }
            }
        }
        Refresh::new(states, config, &indices, false)
    }

    /// The monitors with each fading one at exactly the brightness that was asked for.
    pub open spec fn at_target(self, screens: Screens) -> Screens {
        with_levels(screens, indices_of(self.fading@), target_levels(self.fading@))
    }

    /// Whether this is the answer when the fade has ended.
    pub open spec fn ends_with(
        self,
        reply: Reply,
        outcomes: Seq<CommandOutcome>,
        screens: Screens,
    ) -> bool {
        reply.tells(
            self.holder.socket,
            self.holder.queued() + fault_notes(
                "Failed to set brightness during fade: "@,
                refresh_fault(outcomes, false),
            ) + change_notes(self.fading@, screens),
        )
    }

    /// Makes the last step: each fading monitor gets exactly the brightness that was
    /// asked for.
    pub fn finish(
        &self,
        states: &mut CollectiveMonitorStateInternal,
        config: &DaemonOptions,
    ) -> (refresh: Refresh)
        requires
            old(states).wf(),
            self.wf(old(states)@),
            self.steps_left == 0,
        ensures
            final(states).wf(),
            self.wf(final(states)@),
            final(states)@ == self.at_target(old(states)@),
            indices_of(self.fading@).no_duplicates() ==> forall|k: int|
                0 <= k < self.fading@.len() ==> final(states)@.list[(
                #[trigger] self.fading@[k]).index as int].light.level.is_exactly(
                    self.fading@[k].target as nat,
                ),
            refresh.shows(indices_of(self.fading@), final(states)@, *config, false),
    {
        let indices: Vec<usize> = change_indices(&self.fading);
        let levels: Vec<Level> = levels_for(&self.fading);
        let ghost before = states@;
        set_levels(states, &indices, &levels);
        proof {
            if indices@.no_duplicates() {
                assert forall|k: int| 0 <= k < self.fading@.len() implies states@.list[(
                #[trigger] self.fading@[k]).index as int].light.level.is_exactly(
                    self.fading@[k].target as nat,
                ) by {
                    assert(indices_of(self.fading@)[k] < before.list.len());
                    law_given_levels_are_set(before, indices@, levels@, k);
                    law_percent_level_exact(self.fading@[k].target);
                }
            }
        }
        Refresh::new(states, config, &indices, false)
    }

    /// Goes on when the commands that belong to a step that is not the last were
    /// run.
    pub fn stepped(&mut self, outcomes: &Vec<CommandOutcome>)
        ensures
            old(self).tells_fault(
                *final(self),
                "Failed to set brightness during fade: "@,
                refresh_fault(outcomes@, false),
            ),
    {
        let done: Result<bool, String> = start_result(outcomes);
        let _ = queue_fault(&mut self.holder, "Failed to set brightness during fade: ", done);
    }

    /// Goes on to the next step when the time for this one is over.
    pub fn tick(&mut self)
        requires
            old(self).steps_left > 0,
        ensures
            *final(self) == (Fade {
                steps_left: (old(self).steps_left - 1) as u32,
                ..*old(self)
            }),
    {
        self.steps_left = self.steps_left - 1;
    }

    /// Looks for a request that has arrived for one of the fading monitors. It waits
    /// for the end of the fade, unless it cuts the fade short.
    pub fn receive(self, states: &mut CollectiveMonitorStateInternal) -> (found: Heard)
        requires
            old(states).wf(),
            self.wf(old(states)@),
        ensures
            final(states).wf(),
            self.hears(found, old(states)@, final(states)@),
            match found {
                Heard::Nothing(fade) => fade.wf(final(states)@),
                Heard::Queued(fade) => fade.wf(final(states)@),
                Heard::Interrupted { task, .. } => task.wf(final(states)@),
            },
    {
        match find_heard(&self.fading, states) {
            None => Heard::Nothing(self),
            Some(k) => {
                let index: usize = self.fading[k].index;
                assert(indices_of(self.fading@)[k as int] == index);
                let ghost screens = states@;
                let mut inputs: VecDeque<ForwardedBrightnessInput> = self.inputs;
                match states.take_message(index) {
                    None => {
                        assert(false);
                        Heard::Nothing(Fade { inputs, ..self })
                    },
                    Some(request) => {
                        let terminate_fade: bool = request.brightness_input.terminate_fade;
                        inputs.push_back(request);
                        if terminate_fade {
                            let indices: Vec<usize> = change_indices(&self.fading);
                            assert(states@.has_all(indices@)) by {
                                assert forall|j: int| 0 <= j < indices@.len() implies (
                                #[trigger] indices@[j]) < states@.list.len() by {
                                    assert(indices_of(self.fading@)[j] < screens.list.len());
                                }
                            }
                            note_fading(states, &indices, false);
                            Heard::Interrupted {
                                reply: self.holder.consume(),
                                task: BrightnessTask { inputs, held: self.held },
                            }
                        } else {
                            Heard::Queued(Fade { inputs, ..self })
                        }
                    },
                }
            },
        }
    }

    /// The monitors after the oldest request was taken from those that have arrived
    /// for one of the fading monitors.
    pub open spec fn after_taking(self, k: int, screens: Screens) -> Screens {
        let index = self.fading@[k].index as int;
        let light = screens.list[index].light;
        screens.relit(index, Light { inbox: light.inbox.drop_first(), ..light })
    }

    /// What looking for requests comes to, and what it makes of the monitors.
    pub open spec fn hears(self, found: Heard, screens: Screens, after: Screens) -> bool {
        match first_heard(self.fading@, screens) {
            None => found == Heard::Nothing(self) && after == screens,
            Some(k) => {
                let request = screens.list[self.fading@[k].index as int].light.inbox[0];
                if request.brightness_input.terminate_fade {
                    found matches Heard::Interrupted { reply, task } && reply.tells(
                        self.holder.socket,
                        self.holder.queued(),
                    ) && task.inputs@ == self.inputs@.push(request) && task.held == self.held
                        && after == with_fading(
                        self.after_taking(k, screens),
                        indices_of(self.fading@),
                        false,
                    )
                } else {
                    found matches Heard::Queued(fade) && fade.inputs@ == self.inputs@.push(request)
                        && fade == (Fade { inputs: fade.inputs, ..self }) && after == self.after_taking(k, screens)
                }
            },
        }
    }

    /// Ends the fade when the commands that belong to the last step were run.
    pub fn finished(
        self,
        states: &mut CollectiveMonitorStateInternal,
        outcomes: &Vec<CommandOutcome>,
    ) -> (end: (Reply, BrightnessTask))
        requires
            old(states).wf(),
            self.wf(old(states)@),
        ensures
            final(states).wf(),
            final(states)@ == with_fading(old(states)@, indices_of(self.fading@), false),
            forall|k: int|
                0 <= k < self.fading@.len() ==> !final(states)@.list[(
                #[trigger] self.fading@[k]).index as int].light.is_fading,
            self.ends_with(end.0, outcomes@, old(states)@),
            end.1 == (BrightnessTask { inputs: self.inputs, held: self.held }),
            end.1.wf(final(states)@),
    {
        let indices: Vec<usize> = change_indices(&self.fading);
        let done: Result<bool, String> = start_result(outcomes);
        let mut holder: SocketMessageHolder = self.holder;
        let _ = queue_fault(&mut holder, "Failed to set brightness during fade: ", done);
        note_fading(states, &indices, false);
        assert forall|k: int| 0 <= k < self.fading@.len() implies !states@.list[(
        #[trigger] self.fading@[k]).index as int].light.is_fading by {
            assert(indices_of(self.fading@)[k] == self.fading@[k].index);
            assert(indices@.contains(self.fading@[k].index));
        }
        queue_changes(&mut holder, states, &self.fading);
        assert(change_notes(self.fading@, states@) =~= change_notes(
            self.fading@,
            old(states)@,
        )) by {
            assert forall|k: int| 0 <= k < self.fading@.len() implies (
            #[trigger] self.fading@[k]).index < old(states)@.list.len() by {
                assert(indices_of(self.fading@)[k] == self.fading@[k].index);
            }
        }
        (holder.consume(), BrightnessTask { inputs: self.inputs, held: self.held })
    }
}

/// The first of the fading monitors for which a request has arrived.
fn find_heard(
    changes: &Vec<Change>,
    states: &CollectiveMonitorStateInternal,
) -> (found: Option<usize>)
    requires
        holds(states@, indices_of(changes@)),
    ensures
        match found {
            Some(k) => first_heard(changes@, states@) == Some(k as int) && k
                < changes@.len() && states@.list[changes@[k as int].index as int].light.inbox.len()
                > 0,
            None => first_heard(changes@, states@) is None,
        },
{
    let mut k: usize = 0;
    assert(changes@.take(0).len() == 0);
    while k < changes.len()
        invariant
            0 <= k <= changes@.len(),
            holds(states@, indices_of(changes@)),
            first_heard(changes@.take(k as int), states@) is None,
        decreases changes@.len() - k,
    {
        let index: usize = changes[k].index;
        assert(indices_of(changes@)[k as int] < states@.list.len());
        assert(changes@.take(k + 1).drop_last() =~= changes@.take(k as int));
        assert(changes@.take(k + 1).last() == changes@[k as int]);
        if states.available_adapter_list[index].brightness_state.brightness.write_mutex.len() > 0 {
            proof {
                lemma_first_heard_stays(changes@, states@, k + 1);
            }
            return Some(k);
        }
        k += 1;
    }
    assert(changes@.take(k as int) =~= changes@);
    None
}

proof fn lemma_first_heard_stays(
    changes: Seq<Change>,
    screens: Screens,
    k: int,
)
    requires
        0 <= k <= changes.len(),
        first_heard(changes.take(k), screens) is Some,
    ensures
        first_heard(changes, screens) == first_heard(changes.take(k), screens),
    decreases changes.len() - k,
{
    if k < changes.len() {
        assert(changes.take(k + 1).drop_last() =~= changes.take(k));
        lemma_first_heard_stays(changes, screens, k + 1);
    } else {
        assert(changes.take(k) =~= changes);
    }
}

} // verus!
