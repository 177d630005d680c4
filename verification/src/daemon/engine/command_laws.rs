//! What the commands say that show the lights of the monitors, and what follows from
//! how they end.
use vstd::prelude::*;

use crate::daemon::config::persistent::DaemonOptions;
use crate::daemon::engine::brightness::Refresh;
use crate::daemon::engine::commands::{
    after_refresh, as_calls, calls_for, first_start_failure, last_wait_failure, monitors_for,
    redshift_call, refresh_fault, xrandr_call,
    Argument, CommandLine, CommandOutcome,
};
use crate::daemon::engine::display::{Screen, Screens};
use crate::daemon::engine::nightlight::{NightlightSwitch, NightlightTask, NightlightTurn};
use crate::daemon::engine::single::{redshift_switch, single_call, SingleLight};
use crate::level::Level;
use crate::text::decimal;

verus! {

// ---------------------------------------------------------------------------
// what is run
// ---------------------------------------------------------------------------

/// Whether an argument is a text.
pub open spec fn says(argument: Argument, text: Seq<char>) -> bool {
    argument matches Argument::Text(words) && words@ == text
}

/// Whether a command is a call of xrandr that sets the brightness of a monitor.
pub open spec fn sets_brightness_of(command: CommandLine, name: Seq<char>, level: Level) -> bool {
    &&& command.program@ == "xrandr"@
    &&& command.arguments@.len() >= 4
    &&& says(command.arguments@[0], "--output"@)
    &&& says(command.arguments@[1], name)
    &&& says(command.arguments@[2], "--brightness"@)
    &&& command.arguments@[3] == Argument::Fraction(level)
}

/// Whether a call of xrandr goes on with a gamma behind the brightness.
pub open spec fn sets_gamma(command: CommandLine, gamma: Seq<char>) -> bool {
    &&& command.arguments@.len() == 6
    &&& says(command.arguments@[4], "--gamma"@)
    &&& says(command.arguments@[5], gamma)
}

/// Whether a command is a call of redshift that sets a colour temperature and nothing
/// else.
pub open spec fn sets_temperature(command: CommandLine, temperature: u32) -> bool {
    &&& command.program@ == "redshift"@
    &&& command.arguments@.len() == 2
    &&& says(command.arguments@[0], "-PO"@)
    &&& says(command.arguments@[1], decimal(temperature as nat))
}

/// Commands are run for exactly the monitors that they are to show.
pub proof fn lemma_monitors_for(indices: Seq<usize>, config: DaemonOptions, i: usize)
    ensures
        monitors_for(indices, config).contains(i) <==> indices.contains(i),
    decreases indices.len(),
{
    let all = monitors_for(indices, config);
    if indices.len() > 0 {
        let front = indices.drop_last();
        let before = monitors_for(front, config);
        lemma_monitors_for(front, config, i);
        if before.contains(i) {
            let k = before.index_of(i);
            assert(all[k] == i);
        }
        if indices.last() == i {
            assert(all[before.len() as int] == i);
            assert(indices[indices.len() - 1] == i);
        }
        if front.contains(i) {
            let k = front.index_of(i);
            assert(indices[k] == i);
        }
        if indices.contains(i) {
            let k = indices.index_of(i);
            if k < front.len() {
                assert(front[k] == i);
            }
        }
        if all.contains(i) {
            let k = all.index_of(i);
            if k < before.len() {
                assert(before[k] == i);
            }
        }
    }
}

proof fn lemma_calls_for(
    indices: Seq<usize>,
    screens: Screens,
    config: DaemonOptions,
    k: int,
)
    requires
        0 <= k < indices.len(),
    ensures
        ({
            let calls = calls_for(indices, screens, config);
            let monitors = monitors_for(indices, config);
            let screen = screens.list[indices[k] as int];
            if config.use_redshift {
                &&& calls.len() == 2 * indices.len()
                &&& monitors.len() == 2 * indices.len()
                &&& calls[2 * k] == xrandr_call(screen, config)
                &&& calls[2 * k + 1] == redshift_call(screen, config)
                &&& monitors[2 * k] == indices[k]
                &&& monitors[2 * k + 1] == indices[k]
            } else {
                &&& calls.len() == indices.len()
                &&& monitors.len() == indices.len()
                &&& calls[k] == xrandr_call(screen, config)
                &&& monitors[k] == indices[k]
            }
        }),
    decreases indices.len(),
{
    let front = indices.drop_last();
    lemma_call_count(front, screens, config);
    if k < front.len() {
        lemma_calls_for(front, screens, config, k);
        assert(front[k] == indices[k]);
    }
}

proof fn lemma_call_count(indices: Seq<usize>, screens: Screens, config: DaemonOptions)
    ensures
        calls_for(indices, screens, config).len() == (if config.use_redshift {
            2 * indices.len()
        } else {
            indices.len()
        }),
        monitors_for(indices, config).len() == (if config.use_redshift {
            2 * indices.len()
        } else {
            indices.len()
        }),
    decreases indices.len(),
{
    if indices.len() > 0 {
        lemma_call_count(indices.drop_last(), screens, config);
    }
}

/// Without redshift, each monitor gets one call of xrandr, in order. It sets the
/// brightness, and if the nightlight is on, the gamma of the configuration; if it is
/// off, no gamma is set. Neither depends on what the brightness is.
pub proof fn law_xrandr_shows_the_light(
    refresh: Refresh,
    indices: Seq<usize>,
    screens: Screens,
    config: DaemonOptions,
    auto_remove_displays: bool,
    k: int,
)
    requires
        refresh.shows(indices, screens, config, auto_remove_displays),
        !config.use_redshift,
        0 <= k < indices.len(),
    ensures
        refresh.auto_remove_displays == auto_remove_displays,
        refresh.commands@.len() == indices.len(),
        refresh.monitors@.len() == indices.len(),
        refresh.monitors@[k] == indices[k],
        ({
            let screen = screens.list[indices[k] as int];
            let command = refresh.commands@[k];
            &&& sets_brightness_of(command, screen.name, screen.light.level)
            &&& screen.light.nightlight ==> sets_gamma(
                command,
                config.nightlight_options.xrandr_gamma@,
            )
            &&& !screen.light.nightlight ==> command.arguments@.len() == 4
        }),
{
    lemma_calls_for(indices, screens, config, k);
    let command = refresh.commands@[k];
    assert(as_calls(refresh.commands@)[k] == command@);
    lemma_call_arguments(command, screens.list[indices[k] as int], config);
}

proof fn lemma_call_arguments(command: CommandLine, screen: Screen, config: DaemonOptions)
    requires
        command@ == xrandr_call(screen, config),
    ensures
        sets_brightness_of(command, screen.name, screen.light.level),
        !config.use_redshift && screen.light.nightlight ==> sets_gamma(
            command,
            config.nightlight_options.xrandr_gamma@,
        ),
        config.use_redshift || !screen.light.nightlight ==> command.arguments@.len() == 4,
{
    assert(command@.words.len() == command.arguments@.len());
    assert(command@.words[0] == command.arguments@[0]@);
    assert(command@.words[1] == command.arguments@[1]@);
    assert(command@.words[2] == command.arguments@[2]@);
    assert(command@.words[3] == command.arguments@[3]@);
    if !config.use_redshift && screen.light.nightlight {
        assert(command@.words[4] == command.arguments@[4]@);
        assert(command@.words[5] == command.arguments@[5]@);
    }
}

/// With redshift, each monitor gets a call of xrandr that sets the brightness and no
/// gamma, and behind it a call of redshift that sets the colour temperature: that of
/// the configuration if the nightlight is on, and that of daylight if it is off.
pub proof fn law_redshift_shows_the_nightlight(
    refresh: Refresh,
    indices: Seq<usize>,
    screens: Screens,
    config: DaemonOptions,
    auto_remove_displays: bool,
    k: int,
)
    requires
        refresh.shows(indices, screens, config, auto_remove_displays),
        config.use_redshift,
        0 <= k < indices.len(),
    ensures
        refresh.auto_remove_displays == auto_remove_displays,
        refresh.commands@.len() == 2 * indices.len(),
        refresh.monitors@.len() == 2 * indices.len(),
        refresh.monitors@[2 * k] == indices[k],
        refresh.monitors@[2 * k + 1] == indices[k],
        ({
            let screen = screens.list[indices[k] as int];
            &&& sets_brightness_of(refresh.commands@[2 * k], screen.name, screen.light.level)
            &&& refresh.commands@[2 * k].arguments@.len() == 4
            &&& screen.light.nightlight ==> sets_temperature(
                refresh.commands@[2 * k + 1],
                config.nightlight_options.redshift_temperature,
            )
            &&& !screen.light.nightlight ==> sets_temperature(refresh.commands@[2 * k + 1], 6500)
        }),
{
    lemma_calls_for(indices, screens, config, k);
    let first = refresh.commands@[2 * k];
    let second = refresh.commands@[2 * k + 1];
    assert(as_calls(refresh.commands@)[2 * k] == first@);
    assert(as_calls(refresh.commands@)[2 * k + 1] == second@);
    lemma_call_arguments(first, screens.list[indices[k] as int], config);
    assert(second@.words.len() == second.arguments@.len());
    assert(second@.words[0] == second.arguments@[0]@);
    assert(second@.words[1] == second.arguments@[1]@);
}

/// One light for all displays is shown on each of them by a call of xrandr: with the
/// gamma of the configuration if the nightlight is on and redshift is not used, and
/// without any otherwise.
pub proof fn law_one_light_is_shown(
    command: CommandLine,
    name: Seq<char>,
    light: SingleLight,
    config: DaemonOptions,
)
    requires
        command@ == single_call(name, light, config),
    ensures
        sets_brightness_of(command, name, light.level),
        light.nightlight && !config.use_redshift ==> sets_gamma(
            command,
            config.nightlight_options.xrandr_gamma@,
        ),
        !light.nightlight || config.use_redshift ==> command.arguments@.len() == 4,
{
    assert(command@.words.len() == command.arguments@.len());
    assert(command@.words[0] == command.arguments@[0]@);
    assert(command@.words[1] == command.arguments@[1]@);
    assert(command@.words[2] == command.arguments@[2]@);
    assert(command@.words[3] == command.arguments@[3]@);
    if !config.use_redshift && light.nightlight {
        assert(command@.words[4] == command.arguments@[4]@);
        assert(command@.words[5] == command.arguments@[5]@);
    }
}

/// The nightlight of redshift is switched on with the temperature of the configuration,
/// and off without any.
pub proof fn law_redshift_is_switched(command: CommandLine, nightlight: bool, config: DaemonOptions)
    requires
        command@ == redshift_switch(nightlight, config),
    ensures
        command.program@ == "redshift"@,
        nightlight ==> command.arguments@.len() == 2 && says(command.arguments@[0], "-O"@) && says(
            command.arguments@[1],
            decimal(config.nightlight_options.redshift_temperature as nat),
        ),
        !nightlight ==> command.arguments@.len() == 1 && says(command.arguments@[0], "-x"@),
{
    assert(command@.words.len() == command.arguments@.len());
    assert(command@.words[0] == command.arguments@[0]@);
    if nightlight {
        assert(command@.words[1] == command.arguments@[1]@);
    }
}

// ---------------------------------------------------------------------------
// the nightlight
// ---------------------------------------------------------------------------

/// Switching a nightlight over turns it from off to on and from on to off, and the
/// commands that are run show it: with xrandr, the call for the monitor has the gamma of
/// the configuration exactly if the nightlight is on now.
pub proof fn law_toggled_nightlight_is_shown(
    task: NightlightTask,
    turn: NightlightTurn,
    screens: Screens,
    after: Screens,
    config: DaemonOptions,
)
    requires
        task.wf(screens),
        task.leads_to(turn, screens, after, config),
        turn is Refresh,
        !config.use_redshift,
    ensures
        ({
            let place = task.done as int;
            let index = task.indices@[place];
            let was_on = screens.list[index as int].light.nightlight;
            let command = turn->refresh.commands@[place];
            &&& task.done < task.indices@.len()
            &&& after.list[index as int].light.nightlight == !was_on
            &&& turn->switch.on == !was_on
            &&& turn->switch.task == task
            &&& turn->switch.commanded@ == turn->refresh.monitors@
            &&& turn->refresh.monitors@[place] == index
            &&& turn->refresh.auto_remove_displays
            &&& sets_brightness_of(
                command,
                screens.list[index as int].name,
                screens.list[index as int].light.level,
            )
            &&& was_on ==> command.arguments@.len() == 4
            &&& !was_on ==> sets_gamma(command, config.nightlight_options.xrandr_gamma@)
        }),
{
    let place = task.done as int;
    assert(task.indices@[place] < screens.list.len());
    law_xrandr_shows_the_light(
        turn->refresh,
        task.indices@,
        after,
        config,
        true,
        place,
    );
}

/// What is said of a nightlight that was switched over is whether it is on now, or why
/// it could not be shown; and it is said behind what was said before.
pub proof fn law_toggling_is_reported(
    switch: NightlightSwitch,
    next: NightlightTask,
    outcomes: Seq<CommandOutcome>,
    screens: Screens,
    after: Screens,
)
    requires
        switch.wf(screens),
        switch.leads_to(next, outcomes, screens, after),
    ensures
        next.done == switch.task.done + 1,
        next.indices == switch.task.indices,
        next.holder.socket == switch.task.holder.socket,
        next.holder.messages@.len() == switch.task.holder.messages@.len() + 1,
        refresh_fault(outcomes, true) is None && switch.on ==> next.holder.messages@.last().message@
            == "Enabled nightlight"@ && !next.holder.messages@.last().is_error,
        refresh_fault(outcomes, true) is None && !switch.on
            ==> next.holder.messages@.last().message@ == "Disabled nightlight"@
            && !next.holder.messages@.last().is_error,
        refresh_fault(outcomes, true) matches Some(reason)
            ==> next.holder.messages@.last().message@ == "Failed to refresh xrandr: "@ + reason
            && next.holder.messages@.last().is_error,
        forall|k: int|
            0 <= k < switch.task.holder.messages@.len() ==> (
            #[trigger] next.holder.messages@[k]).message@
                == switch.task.holder.messages@[k].message@ && next.holder.messages@[k].is_error
                == switch.task.holder.messages@[k].is_error,
        after.enabled == after_refresh(screens, switch.commanded@, outcomes, true).enabled,
        after.list.len() == screens.list.len(),
        forall|i: int|
            0 <= i < screens.list.len() ==> (#[trigger] after.list[i]).light.level
                == screens.list[i].light.level && after.list[i].light.nightlight
                == screens.list[i].light.nightlight && after.list[i].light.held
                == screens.list[i].light.held && after.list[i].name == screens.list[i].name && (
            after.list[i].light.nightlight_held <==> screens.list[i].light.nightlight_held && i
                != switch.index()),
{
    assert(switch.task.indices@[switch.task.done as int] < screens.list.len());
    assert forall|k: int| 0 <= k < switch.task.holder.messages@.len() implies (
    #[trigger] next.holder.messages@[k]).message@ == switch.task.holder.messages@[k].message@
        && next.holder.messages@[k].is_error == switch.task.holder.messages@[k].is_error by {
        let earlier = switch.task.holder;
        assert(earlier.queued()[k] == (
            earlier.messages@[k].message@,
            earlier.messages@[k].is_error,
        ));
        assert(next.holder.queued().len() == next.holder.messages@.len());
        assert(next.holder.queued()[k] == (
            next.holder.messages@[k].message@,
            next.holder.messages@[k].is_error,
        ));
        assert(next.holder.queued()[k] == earlier.queued()[k]);
    }
    let before = switch.task.holder.queued();
    let queued = next.holder.queued();
    assert(queued.len() == before.len() + 1);
    assert(queued[before.len() as int] == (
        next.holder.messages@[before.len() as int].message@,
        next.holder.messages@[before.len() as int].is_error,
    ));
}

// ---------------------------------------------------------------------------
// how commands end
// ---------------------------------------------------------------------------

/// With automatic removal, a monitor stays connected exactly if it was and no command
/// for it ended without success; without it, nothing changes.
pub proof fn law_failing_monitors_are_removed(
    screens: Screens,
    indices: Seq<usize>,
    outcomes: Seq<CommandOutcome>,
    i: usize,
)
    requires
        outcomes.len() <= indices.len(),
        forall|k: int| 0 <= k < outcomes.len() ==> !((#[trigger] outcomes[k]) is WaitFailed),
    ensures
        after_refresh(screens, indices, outcomes, false) == screens,
        after_refresh(screens, indices, outcomes, true).list == screens.list,
        after_refresh(screens, indices, outcomes, true).active == screens.active,
        after_refresh(screens, indices, outcomes, true).enabled.contains(i) <==> (
        screens.enabled.contains(i) && forall|k: int|
            0 <= k < outcomes.len() && indices[k] == i ==> #[trigger] outcomes[k]
                != CommandOutcome::Exited(false)),
{
    lemma_no_wait_failure(outcomes);
}

proof fn lemma_no_wait_failure(outcomes: Seq<CommandOutcome>)
    requires
        forall|k: int| 0 <= k < outcomes.len() ==> !((#[trigger] outcomes[k]) is WaitFailed),
    ensures
        last_wait_failure(outcomes) is None,
    decreases outcomes.len(),
{
    if outcomes.len() > 0 {
        assert(!(outcomes[outcomes.len() - 1] is WaitFailed));
        assert forall|k: int| 0 <= k < outcomes.drop_last().len() implies !((
        #[trigger] outcomes.drop_last()[k]) is WaitFailed) by {
            assert(outcomes[k] == outcomes.drop_last()[k]);
        }
        lemma_no_wait_failure(outcomes.drop_last());
    }
}

/// A command whose end could not be found out keeps the outcomes before it from being
/// looked at, and the last such command gives the reason. No removal depends on others.
pub proof fn law_unknown_ends_are_reported(
    screens: Screens,
    indices: Seq<usize>,
    outcomes: Seq<CommandOutcome>,
    place: int,
    reason: String,
    i: usize,
)
    requires
        outcomes.len() <= indices.len(),
        0 <= place < outcomes.len(),
        outcomes[place] == CommandOutcome::WaitFailed(reason),
        forall|k: int| place < k < outcomes.len() ==> !((#[trigger] outcomes[k]) is WaitFailed),
    ensures
        refresh_fault(outcomes, true) == Some(reason@),
        after_refresh(screens, indices, outcomes, true).enabled.contains(i) <==> (
        screens.enabled.contains(i) && forall|k: int|
            place < k < outcomes.len() && indices[k] == i ==> #[trigger] outcomes[k]
                != CommandOutcome::Exited(false)),
{
    lemma_last_wait_failure(outcomes, place, reason);
}

proof fn lemma_last_wait_failure(outcomes: Seq<CommandOutcome>, place: int, reason: String)
    requires
        0 <= place < outcomes.len(),
        outcomes[place] == CommandOutcome::WaitFailed(reason),
        forall|k: int| place < k < outcomes.len() ==> !((#[trigger] outcomes[k]) is WaitFailed),
    ensures
        last_wait_failure(outcomes) == Some((place, reason@)),
    decreases outcomes.len(),
{
    if place < outcomes.len() - 1 {
        assert(!(outcomes[outcomes.len() - 1] is WaitFailed));
        assert forall|k: int| place < k < outcomes.drop_last().len() implies !((
        #[trigger] outcomes.drop_last()[k]) is WaitFailed) by {
            assert(outcomes[k] == outcomes.drop_last()[k]);
        }
        lemma_last_wait_failure(outcomes.drop_last(), place, reason);
    }
}

/// Without automatic removal, the first command that could not be started gives the
/// reason; where all were started, there is none. With it, there is a reason exactly if
/// the end of a command could not be found out.
pub proof fn law_faults_are_reported(outcomes: Seq<CommandOutcome>, place: int)
    requires
        0 <= place <= outcomes.len(),
        forall|k: int| 0 <= k < place ==> !((#[trigger] outcomes[k]) is NotStarted),
    ensures
        place == outcomes.len() ==> refresh_fault(outcomes, false) is None,
        place < outcomes.len() ==> (outcomes[place] matches CommandOutcome::NotStarted(reason)
            ==> refresh_fault(outcomes, false) == Some(reason@)),
        (forall|k: int| 0 <= k < outcomes.len() ==> !((#[trigger] outcomes[k]) is WaitFailed))
            ==> refresh_fault(outcomes, true) is None,
{
    lemma_first_start_failure(outcomes, place);
    if forall|k: int| 0 <= k < outcomes.len() ==> !((#[trigger] outcomes[k]) is WaitFailed) {
        lemma_no_wait_failure(outcomes);
    }
}

proof fn lemma_first_start_failure(outcomes: Seq<CommandOutcome>, place: int)
    requires
        0 <= place <= outcomes.len(),
        forall|k: int| 0 <= k < place ==> !((#[trigger] outcomes[k]) is NotStarted),
    ensures
        place == outcomes.len() ==> first_start_failure(outcomes) is None,
        place < outcomes.len() ==> (outcomes[place] matches CommandOutcome::NotStarted(reason)
            ==> first_start_failure(outcomes) == Some(reason@)),
    decreases outcomes.len(),
{
    if outcomes.len() > 0 {
        let front = outcomes.drop_last();
        if place < outcomes.len() {
            assert forall|k: int| 0 <= k < place implies !((#[trigger] front[k]) is NotStarted) by {
                assert(front[k] == outcomes[k]);
            }
            lemma_first_start_failure(front, place);
        } else {
            assert forall|k: int| 0 <= k < place - 1 implies !((
            #[trigger] front[k]) is NotStarted) by {
                assert(front[k] == outcomes[k]);
            }
            lemma_first_start_failure(front, place - 1);
            assert(!(outcomes[place - 1] is NotStarted));
        }
    }
}

} // verus!
