//! Switching the nightlight of monitors over.
use vstd::prelude::*;

use crate::daemon::config::persistent::DaemonOptions;
use crate::daemon::config::runtime::Light;
use crate::daemon::engine::brightness::Refresh;
use crate::daemon::engine::commands::{
    after_refresh, finish_refresh, monitors_for, refresh_fault, CommandOutcome,
};
use crate::daemon::engine::display::{CollectiveMonitorStateInternal, Screen, Screens};
use crate::daemon::util::io::{Note, Reply, SocketMessageHolder};
use crate::text::concat2;

verus! {

/// A task that switches the nightlight of some monitors over, one after the other.
pub struct NightlightTask {
    /// The positions of the monitors.
    pub indices: Vec<usize>,
    /// How many of them are done.
    pub done: usize,
    pub holder: SocketMessageHolder,
}

/// A task that has switched a nightlight over, which it holds, and waits for the
/// commands that show it.
pub struct NightlightSwitch {
    pub task: NightlightTask,
    /// Whether the nightlight is on now.
    pub on: bool,
    /// The position of the monitor that each of the commands is for.
    pub commanded: Vec<usize>,
}

/// What comes of a task's turn.
pub enum NightlightTurn {
    /// Every nightlight is switched over: this is the answer.
    Respond(Reply),
    /// Somebody else holds the next nightlight: the task has to try again.
    Busy(NightlightTask),
    /// The next nightlight was switched over.
    Refresh { switch: NightlightSwitch, refresh: Refresh },
}

/// The monitors after the nightlight of one of them was taken hold of and switched
/// over.
pub open spec fn switched(screens: Screens, index: usize) -> Screens {
    let light = screens.list[index as int].light;
    screens.relit(
        index as int,
        Light { nightlight: !light.nightlight, nightlight_held: true, ..light },
    )
}

/// The monitors after the nightlight of one of them was let go of.
pub open spec fn nightlight_let_go(screens: Screens, index: usize) -> Screens {
    let light = screens.list[index as int].light;
    screens.relit(index as int, Light { nightlight_held: false, ..light })
}

/// What there is to say of a nightlight that was switched over.
pub open spec fn switch_note(on: bool, fault: Option<Seq<char>>) -> Note {
    match fault {
        Some(reason) => ("Failed to refresh xrandr: "@ + reason, true),
        None => (
            if on {
                "Enabled nightlight"@
            } else {
                "Disabled nightlight"@
            },
            false,
        ),
    }
}

impl NightlightTask {
    /// Whether there is a monitor at each position.
    pub open spec fn wf(self, screens: Screens) -> bool {
        &&& screens.has_all(self.indices@)
        &&& self.done <= self.indices@.len()
    }

    /// What a turn of the task comes to, and what it makes of the monitors.
    pub open spec fn leads_to(
        self,
        turn: NightlightTurn,
        screens: Screens,
        after: Screens,
        config: DaemonOptions,
    ) -> bool {
        if self.done == self.indices@.len() {
            turn matches NightlightTurn::Respond(reply) && reply.tells(
                self.holder.socket,
                self.holder.queued(),
            ) && after == screens
        } else {
            let index = self.indices@[self.done as int];
            let light = screens.list[index as int].light;
            if light.nightlight_held {
                turn == NightlightTurn::Busy(self) && after == screens
            } else {
                turn matches NightlightTurn::Refresh { switch, refresh } && switch.task == self
                    && switch.on == !light.nightlight && switch.commanded@ == monitors_for(
                    self.indices@,
                    config,
                ) && after == switched(
                    screens,
                    index,
                ) && refresh.shows(self.indices@, after, config, true)
            }
        }
    }

    /// Switches the next nightlight over.
    pub fn next(
        self,
        states: &mut CollectiveMonitorStateInternal,
        config: &DaemonOptions,
    ) -> (turn: NightlightTurn)
        requires
            old(states).wf(),
            self.wf(old(states)@),
        ensures
            final(states).wf(),
            self.wf(final(states)@),
            self.leads_to(turn, old(states)@, final(states)@, *config),
    {
        let ghost screens = states@;
        if self.done == self.indices.len() {
            return NightlightTurn::Respond(self.holder.consume());
        }
        let index: usize = self.indices[self.done];
        assert(self.indices@[self.done as int] < screens.list.len());
        if states.available_adapter_list[index].brightness_state.nightlight.locked {
            return NightlightTurn::Busy(self);
        }
        let _ = states.try_hold_nightlight(index);
        let on: bool = states.flip_nightlight(index);
        assert(states@ =~= switched(screens, index));
        let refresh: Refresh = Refresh::new(states, config, &self.indices, true);
        let commanded: Vec<usize> = refresh.commanded();
        NightlightTurn::Refresh { switch: NightlightSwitch { task: self, on, commanded }, refresh }
    }
}

impl NightlightSwitch {
    /// The position of the monitor whose nightlight was switched over.
    pub open spec fn index(self) -> usize {
        self.task.indices@[self.task.done as int]
    }

    /// Whether the task holds the nightlight that it switched over.
    pub open spec fn wf(self, screens: Screens) -> bool {
        &&& self.task.wf(screens)
        &&& self.task.done < self.task.indices@.len()
    }

    /// What the end of the commands comes to, and what it makes of the monitors.
    pub open spec fn leads_to(
        self,
        task: NightlightTask,
        outcomes: Seq<CommandOutcome>,
        screens: Screens,
        after: Screens,
    ) -> bool {
        &&& task.indices == self.task.indices
        &&& task.done == self.task.done + 1
        &&& task.holder.socket == self.task.holder.socket
        &&& task.holder.queued() == self.task.holder.queued().push(
            switch_note(self.on, refresh_fault(outcomes, true)),
        )
        &&& after == nightlight_let_go(
            after_refresh(screens, self.commanded@, outcomes, true),
            self.index(),
        )
    }

    /// Goes on when the commands that show the nightlight were run.
    pub fn refreshed(
        self,
        states: &mut CollectiveMonitorStateInternal,
        outcomes: &Vec<CommandOutcome>,
    ) -> (task: NightlightTask)
        requires
            old(states).wf(),
            self.wf(old(states)@),
            outcomes@.len() <= self.commanded@.len(),
        ensures
            final(states).wf(),
            task.wf(final(states)@),
            self.leads_to(task, outcomes@, old(states)@, final(states)@),
    {
        let NightlightTask { indices, done, holder } = self.task;
        let mut holder: SocketMessageHolder = holder;
        let index: usize = indices[done];
        assert(indices@[done as int] < states@.list.len());
        match finish_refresh(states, &self.commanded, outcomes, true) {
            Ok(_) => {
                if self.on {
                    holder.queue_success("Enabled nightlight".to_owned());
                } else {
                    holder.queue_success("Disabled nightlight".to_owned());
                }
            },
            Err(reason) => {
                holder.queue_error(concat2("Failed to refresh xrandr: ", reason.as_str()));
            },
        }
        let ghost kept = states@;
        states.release_nightlight(index);
        assert(states@ =~= nightlight_let_go(kept, index));
        assert(done < indices.len());
        NightlightTask { indices, done: done + 1, holder }
    }
}

/// The monitors with the nightlight of some of them switched over.
pub open spec fn all_switched(screens: Screens, indices: Seq<usize>) -> Screens {
    Screens {
        list: Seq::new(
            screens.list.len(),
            |i: int|
                Screen {
                    light: Light {
                        nightlight: screens.list[i].light.nightlight != indices.contains(
                            i as usize,
                        ),
                        ..screens.list[i].light
                    },
                    ..screens.list[i]
                },
        ),
        ..screens
    }
}

/// Switching one nightlight over and letting go of it, for one monitor after the
/// other.
pub open spec fn switched_in_turn(screens: Screens, indices: Seq<usize>) -> Screens
    decreases indices.len(),
{
    if indices.len() == 0 {
        screens
    } else {
        let before = switched_in_turn(screens, indices.drop_last());
        nightlight_let_go(switched(before, indices.last()), indices.last())
    }
}

/// A task that nobody is in the way of switches the nightlight of each of its
/// monitors over and leaves everything else as it is.
pub proof fn law_each_is_switched_once(screens: Screens, indices: Seq<usize>)
    requires
        screens.list.len() <= usize::MAX,
        screens.has_all(indices),
        indices.no_duplicates(),
        forall|k: int|
            0 <= k < indices.len() ==> !screens.list[(
            #[trigger] indices[k]) as int].light.nightlight_held,
    ensures
        switched_in_turn(screens, indices) == all_switched(screens, indices),
    decreases indices.len(),
{
    if indices.len() == 0 {
        assert(switched_in_turn(screens, indices) =~= all_switched(screens, indices));
    } else {
        let front = indices.drop_last();
        assert forall|k: int| 0 <= k < front.len() implies (#[trigger] front[k])
            < screens.list.len() && !screens.list[front[k] as int].light.nightlight_held by {
            assert(front[k] == indices[k]);
        }
        law_each_is_switched_once(screens, front);
        let last = indices.last();
        assert(indices[indices.len() - 1] == last);
        assert(!front.contains(last));
        let before = all_switched(screens, front);
        let after = nightlight_let_go(switched(before, last), last);
        assert forall|i: int| 0 <= i < screens.list.len() implies #[trigger] after.list[i]
            == all_switched(screens, indices).list[i] by {
            assert(indices.contains(i as usize) <==> (front.contains(i as usize) || i == last)) by {
                if front.contains(i as usize) {
                    let k = front.index_of(i as usize);
                    assert(indices[k] == i as usize);
                }
                if indices.contains(i as usize) {
                    let k = indices.index_of(i as usize);
                    if k < front.len() {
                        assert(front[k] == i as usize);
                    }
                }
            }
        }
        assert(after =~= all_switched(screens, indices));
    }
}

/// Switching the nightlight of the same monitors over twice restores everything.
pub proof fn law_switching_twice_restores(screens: Screens, indices: Seq<usize>)
    ensures
        all_switched(all_switched(screens, indices), indices) == screens,
{
    assert(all_switched(all_switched(screens, indices), indices) =~= screens);
}

} // verus!
