//! What becomes of the nightlights when they are switched over again and again.
use vstd::prelude::*;

use crate::daemon::config::persistent::DaemonOptions;
use crate::daemon::engine::commands::{law_success_removes_nothing, CommandOutcome};
use crate::daemon::engine::display::{
    lemma_ascending, lemma_chosen_by_names, lemma_chosen_exist, Screens,
};
use crate::daemon::engine::nightlight::{
    all_switched, law_each_is_switched_once, law_switching_twice_restores, nightlight_let_go, switched,
    NightlightTask, NightlightTurn,
};
use crate::daemon::engine::requests::{nightlight_choice, serves, InputAction};
use crate::daemon::util::io::SocketMessageHolder;
use crate::shared::{MonitorOverride, ProgramInput};

verus! {

/// A turn of a task that switches nightlights over, and the end of the commands that
/// it led to. The monitors are given before and behind each.
pub struct SwitchStep {
    pub task: NightlightTask,
    pub screens: Screens,
    pub turn: NightlightTurn,
    pub between: Screens,
    pub outcomes: Seq<CommandOutcome>,
    pub next: NightlightTask,
    pub after: Screens,
}

impl SwitchStep {
    /// Whether the task takes this step.
    pub open spec fn is_taken(self, config: DaemonOptions) -> bool {
        &&& self.task.leads_to(self.turn, self.screens, self.between, config)
        &&& match self.turn {
            NightlightTurn::Refresh { switch, .. } => switch.leads_to(
                self.next,
                self.outcomes,
                self.between,
                self.after,
            ),
            _ => self.next == self.task && self.after == self.between,
        }
    }

    /// Whether no command of the step ended badly.
    pub open spec fn succeeds(self) -> bool {
        forall|k: int|
            0 <= k < self.outcomes.len() ==> #[trigger] self.outcomes[k] != CommandOutcome::Exited(
                false,
            )
    }
}

/// Whether a task gets from one point to another by successful steps.
pub open spec fn leads_through(
    task: NightlightTask,
    steps: Seq<SwitchStep>,
    screens: Screens,
    next: NightlightTask,
    after: Screens,
    config: DaemonOptions,
) -> bool
    decreases steps.len(),
{
    if steps.len() == 0 {
        next == task && after == screens
    } else {
        let last = steps.last();
        &&& leads_through(task, steps.drop_last(), screens, last.task, last.screens, config)
        &&& last.is_taken(config)
        &&& last.succeeds()
        &&& next == last.next
        &&& after == last.after
    }
}

/// Whether nobody holds the nightlight of any of some monitors.
pub open spec fn nightlights_are_free(screens: Screens, indices: Seq<usize>) -> bool {
    forall|k: int|
        0 <= k < indices.len() ==> !screens.list[(
        #[trigger] indices[k]) as int].light.nightlight_held
}

/// With every step, a task that nobody is in the way of switches the nightlight of
/// one more of its monitors over, and it changes nothing else.
pub proof fn law_a_step_switches_one(
    task: NightlightTask,
    steps: Seq<SwitchStep>,
    screens: Screens,
    next: NightlightTask,
    after: Screens,
    config: DaemonOptions,
)
    requires
        screens.list.len() <= usize::MAX,
        task.wf(screens),
        task.done == 0,
        task.indices@.no_duplicates(),
        nightlights_are_free(screens, task.indices@),
        steps.len() <= task.indices@.len(),
        leads_through(task, steps, screens, next, after, config),
    ensures
        next.indices == task.indices,
        next.done == steps.len(),
        after == all_switched(screens, task.indices@.take(steps.len() as int)),
    decreases steps.len(),
{
    let indices = task.indices@;
    let count = steps.len() as int;
    if count == 0 {
        assert(after =~= all_switched(screens, indices.take(0)));
    } else {
        let last = steps.last();
        let front = indices.take(count - 1);
        let index = indices[count - 1];
        law_a_step_switches_one(
            task,
            steps.drop_last(),
            screens,
            last.task,
            last.screens,
            config,
        );
        let behind = indices.take(count);
        assert(behind.drop_last() =~= front);
        assert(behind.last() == index);
        assert(index < screens.list.len());
        assert forall|k: int| 0 <= k < behind.len() implies (#[trigger] behind[k])
            < screens.list.len() && !screens.list[behind[k] as int].light.nightlight_held by {
            assert(behind[k] == indices[k]);
        }
        assert forall|k: int| 0 <= k < front.len() implies (#[trigger] front[k])
            < screens.list.len() && !screens.list[front[k] as int].light.nightlight_held by {
            assert(front[k] == indices[k]);
        }
        assert(!screens.list[indices[count - 1] as int].light.nightlight_held);
        law_each_is_switched_once(screens, front);
        law_each_is_switched_once(screens, behind);
        assert(last.between == switched(last.screens, index));
        law_success_removes_nothing(
            last.between,
            last.turn->switch.commanded@,
            last.outcomes,
            true,
        );
        assert(after == nightlight_let_go(switched(last.screens, index), index));
    }
}

/// Whichever monitors are chosen, each is chosen once.
proof fn lemma_chosen_once(screens: Screens, monitors: MonitorOverride)
    requires
        screens.is_sound(),
    ensures
        screens.chosen(monitors).no_duplicates(),
{
    lemma_ascending(screens.enabled, screens.list.len());
}

/// A request to switch nightlights over that is carried out with nobody in the way
/// and with commands that end well switches the nightlight of each monitor that it
/// chooses over, and changes nothing else: no brightness, and not which monitors are
/// connected.
pub proof fn law_toggling_switches_the_chosen(
    monitor_override: Option<MonitorOverride>,
    holder: SocketMessageHolder,
    task: NightlightTask,
    steps: Seq<SwitchStep>,
    ended: NightlightTask,
    screens: Screens,
    started: Screens,
    after: Screens,
    config: DaemonOptions,
    levels: Seq<Seq<char>>,
)
    requires
        screens.is_sound(),
        nightlight_choice(monitor_override, config) is Active ==> screens.has_active(),
        nightlights_are_free(screens, screens.chosen(nightlight_choice(monitor_override, config))),
        serves(
            ProgramInput::ToggleNightlight(monitor_override),
            InputAction::ToggleNightlight(task),
            holder,
            screens,
            started,
            config,
            levels,
        ),
        leads_through(task, steps, started, ended, after, config),
        steps.len() == task.indices@.len(),
    ensures
        ended.done == ended.indices@.len(),
        after == all_switched(
            screens,
            screens.chosen(nightlight_choice(monitor_override, config)),
        ),
{
    let monitors = nightlight_choice(monitor_override, config);
    lemma_chosen_exist(screens, monitors);
    lemma_chosen_once(screens, monitors);
    law_a_step_switches_one(task, steps, started, ended, after, config);
    assert(task.indices@.take(steps.len() as int) =~= task.indices@);
}

/// Switching the nightlight of all monitors over leaves every connected monitor as
/// switching those of the connected ones over does.
pub proof fn law_all_are_switched_like_enabled(screens: Screens, index: usize)
    requires
        screens.is_sound(),
        screens.enabled.contains(index),
    ensures
        all_switched(screens, screens.chosen(MonitorOverride::All)).list[index as int]
            == all_switched(screens, screens.chosen(MonitorOverride::Enabled)).list[index as int],
{
    lemma_ascending(screens.enabled, screens.list.len());
    let all = screens.chosen(MonitorOverride::All);
    assert(all[index as int] == index);
}

/// A request to switch nightlights over, made twice, leaves every monitor as it was:
/// each nightlight is as it was before, and no brightness was changed.
pub proof fn law_toggling_twice_restores(
    monitor_override: Option<MonitorOverride>,
    holders: (SocketMessageHolder, SocketMessageHolder),
    first: NightlightTask,
    first_steps: Seq<SwitchStep>,
    first_ended: NightlightTask,
    second: NightlightTask,
    second_steps: Seq<SwitchStep>,
    second_ended: NightlightTask,
    screens: Screens,
    between: Screens,
    after: Screens,
    config: DaemonOptions,
    levels: Seq<Seq<char>>,
)
    requires
        screens.is_sound(),
        nightlight_choice(monitor_override, config) is Active ==> screens.has_active(),
        nightlights_are_free(screens, screens.chosen(nightlight_choice(monitor_override, config))),
        serves(
            ProgramInput::ToggleNightlight(monitor_override),
            InputAction::ToggleNightlight(first),
            holders.0,
            screens,
            screens,
            config,
            levels,
        ),
        leads_through(first, first_steps, screens, first_ended, between, config),
        first_steps.len() == first.indices@.len(),
        serves(
            ProgramInput::ToggleNightlight(monitor_override),
            InputAction::ToggleNightlight(second),
            holders.1,
            between,
            between,
            config,
            levels,
        ),
        leads_through(second, second_steps, between, second_ended, after, config),
        second_steps.len() == second.indices@.len(),
    ensures
        after == screens,
{
    let monitors = nightlight_choice(monitor_override, config);
    let indices = screens.chosen(monitors);
    law_toggling_switches_the_chosen(
        monitor_override,
        holders.0,
        first,
        first_steps,
        first_ended,
        screens,
        screens,
        between,
        config,
        levels,
    );
    lemma_chosen_by_names(screens, between, monitors);
    lemma_chosen_exist(screens, monitors);
    assert forall|k: int| 0 <= k < indices.len() implies !between.list[(
    #[trigger] indices[k]) as int].light.nightlight_held by {
        assert(indices[k] < screens.list.len());
    }
    law_toggling_switches_the_chosen(
        monitor_override,
        holders.1,
        second,
        second_steps,
        second_ended,
        between,
        between,
        after,
        config,
        levels,
    );
    law_switching_twice_restores(screens, indices);
}

/// Switching the nightlights of some monitors over changes the nightlight of each of these
/// and of no other, and nothing else of any monitor.
pub proof fn law_only_nightlights_are_switched(screens: Screens, indices: Seq<usize>, i: usize)
    requires
        i < screens.list.len(),
    ensures
        ({
            let before = screens.list[i as int];
            let after = all_switched(screens, indices).list[i as int];
            &&& all_switched(screens, indices).list.len() == screens.list.len()
            &&& indices.contains(i) ==> after.light.nightlight == !before.light.nightlight
            &&& !indices.contains(i) ==> after.light.nightlight == before.light.nightlight
            &&& after.light.level == before.light.level
            &&& after.light.held == before.light.held
            &&& after.light.inbox == before.light.inbox
            &&& after.light.is_fading == before.light.is_fading
            &&& after.light.nightlight_held == before.light.nightlight_held
            &&& after.name == before.name
            &&& after.metadata == before.metadata
        }),
        all_switched(screens, indices).enabled == screens.enabled,
        all_switched(screens, indices).active == screens.active,
        all_switched(screens, indices).named == screens.named,
{
}

/// A task waits exactly as long as somebody else holds the next nightlight, and answers
/// exactly when all of its monitors are done, with all that was said on the way. Neither
/// changes a monitor.
pub proof fn law_a_turn_of_the_task(
    task: NightlightTask,
    turn: NightlightTurn,
    screens: Screens,
    after: Screens,
    config: DaemonOptions,
)
    requires
        task.wf(screens),
        task.leads_to(turn, screens, after, config),
    ensures
        turn is Respond <==> task.done == task.indices@.len(),
        turn is Busy <==> task.done < task.indices@.len()
            && screens.list[task.indices@[task.done as int] as int].light.nightlight_held,
        turn is Busy ==> turn->Busy_0 == task,
        !(turn is Refresh) ==> after == screens,
        turn is Respond ==> turn->Respond_0.tells(task.holder.socket, task.holder.queued()),
{
}

} // verus!
