//! What becomes of the monitors that a change of brightness is meant for.
use vstd::prelude::*;

use crate::daemon::config::persistent::DaemonOptions;
use crate::daemon::config::runtime::{BrightnessInputInfo, ForwardedBrightnessInput};
use crate::daemon::engine::brightness::{
    choice_of, complaints, first_blocked, in_order, indices_of, is_processed_form, lemma_in_order,
    level_at, relevant, waiting_at, with_fading, with_levels, target_of, BrightnessTask,
    Change, Measurement, Refresh, Turn,
};
use crate::daemon::engine::brightness_laws::{
    all_different, law_change_ends_exactly, law_others_stay,
};
use crate::daemon::engine::command_laws::{
    law_redshift_shows_the_nightlight, law_xrandr_shows_the_light, lemma_monitors_for,
    sets_brightness_of,
};
use crate::daemon::engine::commands::{after_refresh, refresh_fault, CommandOutcome};
use crate::daemon::engine::display::{lemma_ascending, lemma_position, Screens};
use crate::daemon::engine::fade::{
    connected_part, faded_part, fades, plan_of, settled_notes, Fade, Heard, Settled, Settlement,
};
use crate::daemon::util::io::{law_answers_say_what_was_queued, Reply};
use crate::level::{law_percent_level_exact, percent_level, Level};
use crate::shared::{BrightnessChange, BrightnessInput, ExitStatus, MonitorOverride};
use crate::text::{ascii_lower, decimal, texts};

verus! {

// ---------------------------------------------------------------------------
// where a change leads to
// ---------------------------------------------------------------------------

/// An adjustment leads to the sum of the whole brightness and the shift; to a hundred
/// where the sum is more, and to ten where it is less.
pub proof fn law_adjustment_is_clamped(shift: i8, level: Level)
    ensures
        ({
            let sum = shift + level.truncated(-32768, 32767);
            let target = target_of(Some(BrightnessChange::Adjustment(shift)), level);
            &&& 10 <= target <= 100
            &&& 10 <= sum <= 100 ==> target == sum
            &&& sum > 100 ==> target == 100
            &&& sum < 10 ==> target == 10
        }),
{
}

/// The larger of two adjustments never leads to less.
pub proof fn law_adjustment_is_monotone(less: i8, more: i8, level: Level)
    requires
        less <= more,
    ensures
        target_of(Some(BrightnessChange::Adjustment(less)), level) <= target_of(
            Some(BrightnessChange::Adjustment(more)),
            level,
        ),
{
}

/// From a brightness between ten and a hundred, turning it up never leads below it,
/// turning it down never above it, and neither by more than was asked for.
pub proof fn law_adjustment_goes_the_right_way(shift: i8, percent: u8)
    requires
        10 <= percent <= 100,
    ensures
        ({
            let target = target_of(Some(BrightnessChange::Adjustment(shift)), percent_level(percent));
            &&& shift >= 0 ==> percent <= target <= percent + shift
            &&& shift <= 0 ==> percent + shift <= target <= percent
        }),
{
    law_percent_level_exact(percent);
}

/// A brightness to set is what the change leads to, wherever it starts; without a
/// change a brightness of whole per cent stays.
pub proof fn law_set_leads_there(percent: u8, level: Level)
    ensures
        target_of(Some(BrightnessChange::SetTo(percent)), level) == percent,
        target_of(None, percent_level(percent)) == percent,
{
    law_percent_level_exact(percent);
}

/// Where a task takes up a request, each monitor that it is meant for, and no other,
/// is changed from its brightness to what was asked for; in the order of the monitors.
pub proof fn law_chosen_monitors_are_changed(
    task: BrightnessTask,
    turn: Turn,
    screens: Screens,
    after: Screens,
    config: DaemonOptions,
)
    requires
        screens.is_sound(),
        task.queue(screens).len() > 0,
        screens.has_all(task.next_relevant(screens, config)),
        task.leads_to(turn, screens, after, config),
        turn is Measure,
    ensures
        ({
            let request = task.queue(screens)[0];
            let changes = turn->Measure_0.changes@;
            &&& turn->Measure_0.input == request.brightness_input
            &&& turn->Measure_0.holder == request.socket_message_holder
            &&& turn->Measure_0.inputs@ == task.queue(screens).skip(1)
            &&& are_ascending(changes)
            &&& forall|k: int|
                0 <= k < changes.len() ==> task.next_relevant(screens, config).contains(
                    (#[trigger] changes[k]).index,
                ) && changes[k].index < screens.list.len() && changes[k].start
                    == screens.list[changes[k].index as int].light.level && changes[k].target
                    == target_of(request.brightness_input.brightness, changes[k].start)
            &&& forall|i: usize| #[trigger]
                task.next_relevant(screens, config).contains(i) ==> indices_of(changes).contains(i)
            &&& forall|i: int|
                0 <= i < screens.list.len() ==> (#[trigger] after.list[i]).light.level
                    == screens.list[i].light.level && after.list[i].light.nightlight
                    == screens.list[i].light.nightlight && (after.list[i].light.held <==> (
                indices_of(changes).contains(i as usize) || (screens.list[i].light.held
                    && !task.held@.contains(i as usize))))
        }),
{
    let indices = task.next_relevant(screens, config);
    let ordered = in_order(indices, screens.list.len());
    let changes = turn->Measure_0.changes@;
    lemma_in_order(indices, screens.list.len());
    assert(task.queue(screens).drop_first() =~= task.queue(screens).skip(1));
    assert forall|k: int| 0 <= k < changes.len() implies indices.contains(
        (#[trigger] changes[k]).index,
    ) && changes[k].index < screens.list.len() by {
        assert(ordered[k] == changes[k].index);
    }
    assert forall|j: int, k: int| 0 <= j < k < changes.len() implies (#[trigger] changes[j]).index
        < (#[trigger] changes[k]).index by {
        assert(ordered[j] < ordered[k]);
    }
    assert forall|i: usize| #[trigger] indices.contains(i) implies indices_of(changes).contains(
        i,
    ) by {
        let j = indices.index_of(i);
        assert(indices[j] < screens.list.len());
        assert(ordered.contains(i));
        let k = ordered.index_of(i);
        assert(indices_of(changes)[k] == i);
    }
    assert forall|i: usize| #[trigger] indices_of(changes).contains(i) implies indices.contains(
        i,
    ) by {
        let k = indices_of(changes).index_of(i);
        assert(changes[k].index == i);
    }
    assert forall|i: int| 0 <= i < screens.list.len() implies (#[trigger] after.list[i]).light.level
        == screens.list[i].light.level && after.list[i].light.nightlight
        == screens.list[i].light.nightlight && (after.list[i].light.held <==> (indices_of(
        changes,
    ).contains(i as usize) || (screens.list[i].light.held && !task.held@.contains(i as usize)))) by {
        assert(indices.contains(i as usize) <==> indices_of(changes).contains(i as usize));
    }
}

/// Whether changes stand in the order of their monitors.
pub open spec fn are_ascending(changes: Seq<Change>) -> bool {
    forall|j: int, k: int|
        0 <= j < k < changes.len() ==> (#[trigger] changes[j]).index < (
        #[trigger] changes[k]).index
}

// ---------------------------------------------------------------------------
// what is faded into, and what is made at once
// ---------------------------------------------------------------------------

/// Whether a part of some changes holds only changes of them, in order.
pub open spec fn is_part_of(part: Seq<Change>, changes: Seq<Change>) -> bool {
    &&& forall|j: int| 0 <= j < part.len() ==> changes.contains(#[trigger] part[j])
    &&& are_ascending(part)
}

proof fn lemma_faded_part(
    changes: Seq<Change>,
    shifts: Seq<u8>,
    input: BrightnessInput,
    screens: Screens,
    config: DaemonOptions,
    faded: bool,
)
    requires
        are_ascending(changes),
        shifts.len() >= changes.len(),
    ensures
        is_part_of(faded_part(changes, shifts, input, screens, config, faded), changes),
        forall|k: int|
            0 <= k < changes.len() ==> (faded_part(
                changes,
                shifts,
                input,
                screens,
                config,
                faded,
            ).contains(#[trigger] changes[k]) <==> fades(
                changes[k],
                shifts[k],
                input,
                screens,
                config,
            ) == faded),
    decreases changes.len(),
{
    let part = faded_part(changes, shifts, input, screens, config, faded);
    if changes.len() > 0 {
        let front = changes.drop_last();
        let before = faded_part(front, shifts, input, screens, config, faded);
        assert forall|j: int, k: int| 0 <= j < k < front.len() implies (#[trigger] front[j]).index
            < (#[trigger] front[k]).index by {
            assert(changes[j].index < changes[k].index);
        }
        lemma_faded_part(front, shifts, input, screens, config, faded);
        assert forall|j: int| 0 <= j < part.len() implies changes.contains(#[trigger] part[j]) by {
            if j < before.len() {
                assert(front.contains(before[j]));
                let k = front.index_of(before[j]);
                assert(changes[k] == part[j]);
            } else {
                assert(changes[changes.len() - 1] == part[j]);
            }
        }
        assert forall|j: int, k: int| 0 <= j < k < part.len() implies (#[trigger] part[j]).index < (
        #[trigger] part[k]).index by {
            if k < before.len() {
                assert(before[j].index < before[k].index);
            } else {
                assert(front.contains(before[j]));
                let m = front.index_of(before[j]);
                assert(changes[m].index < changes[changes.len() - 1].index);
            }
        }
        assert forall|k: int| 0 <= k < changes.len() implies (part.contains(
            #[trigger] changes[k],
        ) <==> fades(changes[k], shifts[k], input, screens, config) == faded) by {
            if k < front.len() {
                assert(front[k] == changes[k]);
                if before.contains(changes[k]) {
                    let j = before.index_of(changes[k]);
                    assert(part[j] == changes[k]);
                }
                if part.contains(changes[k]) {
                    let j = part.index_of(changes[k]);
                    if j == before.len() {
                        assert(changes[k].index < changes[changes.len() - 1].index);
                    } else {
                        assert(before[j] == changes[k]);
                    }
                }
            } else {
                if part.contains(changes[k]) {
                    let j = part.index_of(changes[k]);
                    if j < before.len() {
                        assert(front.contains(before[j]));
                        let m = front.index_of(before[j]);
                        assert(changes[m].index < changes[k].index);
                    }
                }
                if fades(changes[k], shifts[k], input, screens, config) == faded {
                    assert(part[before.len() as int] == changes[k]);
                }
            }
        }
    }
}

/// A change of a connected monitor is faded into if the request says to fade, whatever
/// its size; it is made at once if the request says not to; and if it does not say, it
/// is faded into exactly if it is larger than the threshold. A change of a monitor that
/// is not connected is made at once.
pub proof fn law_fades_as_asked(
    measurement: Measurement,
    settlement: Settlement,
    refresh: Refresh,
    shifts: Seq<u8>,
    screens: Screens,
    after: Screens,
    config: DaemonOptions,
    k: int,
)
    requires
        are_ascending(measurement.changes@),
        shifts.len() == measurement.changes@.len(),
        measurement.leads_to(settlement, refresh, shifts, screens, after, config),
        0 <= k < measurement.changes@.len(),
    ensures
        ({
            let change = measurement.changes@[k];
            let connected = screens.enabled.contains(change.index);
            let faded = settlement.fading@.contains(change);
            &&& faded <==> !settlement.settled@.contains(change)
            &&& connected && measurement.input.override_fade == Some(true) ==> faded
            &&& measurement.input.override_fade == Some(false) ==> !faded
            &&& connected && measurement.input.override_fade is None ==> (faded <==> shifts[k]
                > config.fade_options.threshold)
            &&& !connected ==> !faded
        }),
        is_part_of(settlement.settled@, measurement.changes@),
        is_part_of(settlement.fading@, measurement.changes@),
{
    lemma_faded_part(measurement.changes@, shifts, measurement.input, screens, config, true);
    lemma_faded_part(measurement.changes@, shifts, measurement.input, screens, config, false);
}

/// A request that says to fade fades into every change of connected monitors and makes
/// none at once; one that says not to fade makes every change at once.
pub proof fn law_all_or_nothing_fades(
    measurement: Measurement,
    shifts: Seq<u8>,
    screens: Screens,
    config: DaemonOptions,
)
    requires
        shifts.len() == measurement.changes@.len(),
        forall|k: int|
            0 <= k < measurement.changes@.len() ==> screens.enabled.contains(
                (#[trigger] measurement.changes@[k]).index,
            ),
    ensures
        measurement.input.override_fade == Some(true) ==> measurement.gradual(
            shifts,
            screens,
            config,
        ) == measurement.changes@ && measurement.at_once(shifts, screens, config).len() == 0,
        measurement.input.override_fade == Some(false) ==> measurement.at_once(
            shifts,
            screens,
            config,
        ) == measurement.changes@ && measurement.gradual(shifts, screens, config).len() == 0,
{
    lemma_all_or_nothing(measurement.changes@, shifts, measurement.input, screens, config);
}

proof fn lemma_all_or_nothing(
    changes: Seq<Change>,
    shifts: Seq<u8>,
    input: BrightnessInput,
    screens: Screens,
    config: DaemonOptions,
)
    requires
        forall|k: int|
            0 <= k < changes.len() ==> screens.enabled.contains((#[trigger] changes[k]).index),
    ensures
        input.override_fade is Some ==> faded_part(
            changes,
            shifts,
            input,
            screens,
            config,
            input.override_fade->0,
        ) == changes && faded_part(
            changes,
            shifts,
            input,
            screens,
            config,
            !input.override_fade->0,
        ).len() == 0,
    decreases changes.len(),
{
    if changes.len() > 0 {
        let front = changes.drop_last();
        assert forall|k: int| 0 <= k < front.len() implies screens.enabled.contains(
            (#[trigger] front[k]).index,
        ) by {
            assert(front[k] == changes[k]);
        }
        assert(screens.enabled.contains(changes[changes.len() - 1].index));
        lemma_all_or_nothing(front, shifts, input, screens, config);
        assert(front.push(changes.last()) =~= changes);
    } else {
        assert(changes =~= Seq::<Change>::empty());
    }
}

/// A larger change never fades less: where one of two changes of connected monitors of
/// the same request is faded into and the other is at least as large, the other is too.
pub proof fn law_larger_changes_fade(
    change: Change,
    other: Change,
    shift: u8,
    more: u8,
    input: BrightnessInput,
    screens: Screens,
    config: DaemonOptions,
)
    requires
        shift <= more,
        screens.enabled.contains(change.index),
        screens.enabled.contains(other.index),
    ensures
        fades(change, shift, input, screens, config) ==> fades(other, more, input, screens, config),
{
}

/// A change that is made at once brings its monitor to exactly the brightness asked
/// for; a monitor whose change is faded into stays where it is for now; and nothing else
/// of any monitor changes.
pub proof fn law_changes_at_once_are_made(
    measurement: Measurement,
    settlement: Settlement,
    refresh: Refresh,
    shifts: Seq<u8>,
    screens: Screens,
    after: Screens,
    config: DaemonOptions,
    i: usize,
)
    requires
        are_ascending(measurement.changes@),
        screens.has_all(indices_of(measurement.changes@)),
        shifts.len() == measurement.changes@.len(),
        measurement.leads_to(settlement, refresh, shifts, screens, after, config),
        i < screens.list.len(),
    ensures
        after.list.len() == screens.list.len(),
        after.enabled == screens.enabled,
        after.active == screens.active,
        after.list[i as int].name == screens.list[i as int].name,
        after.list[i as int].light.nightlight == screens.list[i as int].light.nightlight,
        after.list[i as int].light.held == screens.list[i as int].light.held,
        after.list[i as int].light.inbox == screens.list[i as int].light.inbox,
        after.list[i as int].light.is_fading == screens.list[i as int].light.is_fading,
        !indices_of(settlement.settled@).contains(i) ==> after.list[i as int].light.level
            == screens.list[i as int].light.level,
        forall|j: int|
            0 <= j < settlement.settled@.len() && (#[trigger] settlement.settled@[j]).index == i
                ==> after.list[i as int].light.level.is_exactly(
                settlement.settled@[j].target as nat,
            ),
{
    let settled = settlement.settled@;
    lemma_faded_part(measurement.changes@, shifts, measurement.input, screens, config, false);
    if !indices_of(settled).contains(i) {
        law_others_stay(
            screens,
            indices_of(settled),
            crate::daemon::engine::brightness::target_levels(settled),
            true,
            i,
        );
    }
    assert forall|j: int|
        0 <= j < settled.len() && (#[trigger] settled[j]).index == i implies after.list[i as int].light.level.is_exactly(
    settled[j].target as nat) by {
        assert(all_different(settled));
        assert(screens.has_all(indices_of(settled))) by {
            assert forall|m: int| 0 <= m < indices_of(settled).len() implies (
            #[trigger] indices_of(settled)[m]) < screens.list.len() by {
                assert(measurement.changes@.contains(settled[m]));
                let n = measurement.changes@.index_of(settled[m]);
                assert(indices_of(measurement.changes@)[n] < screens.list.len());
            }
        }
        law_change_ends_exactly(screens, settled, j);
    }
}

// ---------------------------------------------------------------------------
// what is shown
// ---------------------------------------------------------------------------

proof fn lemma_connected_part(changes: Seq<Change>, screens: Screens, i: usize)
    ensures
        connected_part(changes, screens).contains(i) <==> indices_of(changes).contains(i)
            && screens.enabled.contains(i),
    decreases changes.len(),
{
    let part = connected_part(changes, screens);
    if changes.len() > 0 {
        let front = changes.drop_last();
        let before = connected_part(front, screens);
        lemma_connected_part(front, screens, i);
        if indices_of(front).contains(i) {
            let k = indices_of(front).index_of(i);
            assert(indices_of(changes)[k] == i);
        }
        if before.contains(i) {
            let k = before.index_of(i);
            assert(part[k] == i);
        }
        if changes.last().index == i {
            assert(indices_of(changes)[changes.len() - 1] == i);
            if screens.enabled.contains(i) {
                assert(part[before.len() as int] == i);
            }
        }
        if indices_of(changes).contains(i) {
            let k = indices_of(changes).index_of(i);
            if k < front.len() {
                assert(indices_of(front)[k] == i);
            }
        }
        if part.contains(i) {
            let k = part.index_of(i);
            if k < before.len() {
                assert(before[k] == i);
            }
        }
    }
}

/// What is made at once is shown: a command is run for a monitor exactly if a change of
/// it was made at once and it is connected, whatever the change.
pub proof fn law_what_is_made_at_once_is_shown(
    measurement: Measurement,
    settlement: Settlement,
    refresh: Refresh,
    shifts: Seq<u8>,
    screens: Screens,
    after: Screens,
    config: DaemonOptions,
    i: usize,
)
    requires
        measurement.leads_to(settlement, refresh, shifts, screens, after, config),
    ensures
        refresh.monitors@.contains(i) <==> indices_of(settlement.settled@).contains(i)
            && screens.enabled.contains(i),
        settlement.refreshed@ == refresh.monitors@,
        refresh.auto_remove_displays == config.auto_remove_displays,
        settlement.plan == plan_of(config),
        settlement.inputs == measurement.inputs,
        settlement.holder == measurement.holder,
        settlement.held@ == indices_of(measurement.changes@),
{
    let shown = connected_part(settlement.settled@, screens);
    lemma_connected_part(settlement.settled@, screens, i);
    lemma_monitors_for(shown, config, i);
}

/// A change of a connected monitor that is made at once reaches the screen: a call of
/// xrandr is run for the monitor that sets exactly the brightness that was asked for.
pub proof fn law_change_at_once_reaches_the_screen(
    measurement: Measurement,
    settlement: Settlement,
    refresh: Refresh,
    shifts: Seq<u8>,
    screens: Screens,
    after: Screens,
    config: DaemonOptions,
    j: int,
)
    requires
        are_ascending(measurement.changes@),
        screens.has_all(indices_of(measurement.changes@)),
        shifts.len() == measurement.changes@.len(),
        measurement.leads_to(settlement, refresh, shifts, screens, after, config),
        0 <= j < settlement.settled@.len(),
        screens.enabled.contains(settlement.settled@[j].index),
    ensures
        ({
            let change = settlement.settled@[j];
            exists|c: int, level: Level|
                0 <= c < refresh.commands@.len() && refresh.monitors@[c] == change.index
                    && level.is_exactly(change.target as nat) && #[trigger] sets_brightness_of(
                    refresh.commands@[c],
                    screens.list[change.index as int].name,
                    level,
                )
        }),
{
    let change = settlement.settled@[j];
    let shown = connected_part(settlement.settled@, screens);
    assert(indices_of(settlement.settled@)[j] == change.index);
    lemma_connected_part(settlement.settled@, screens, change.index);
    let k = shown.index_of(change.index);
    lemma_faded_part(measurement.changes@, shifts, measurement.input, screens, config, false);
    assert(measurement.changes@.contains(change));
    let n = measurement.changes@.index_of(change);
    assert(indices_of(measurement.changes@)[n] < screens.list.len());
    law_changes_at_once_are_made(
        measurement,
        settlement,
        refresh,
        shifts,
        screens,
        after,
        config,
        change.index,
    );
    let level = after.list[change.index as int].light.level;
    let name = screens.list[change.index as int].name;
    if config.use_redshift {
        law_redshift_shows_the_nightlight(
            refresh,
            shown,
            after,
            config,
            config.auto_remove_displays,
            k,
        );
        assert(sets_brightness_of(refresh.commands@[2 * k], name, level));
    } else {
        law_xrandr_shows_the_light(
            refresh,
            shown,
            after,
            config,
            config.auto_remove_displays,
            k,
        );
        assert(sets_brightness_of(refresh.commands@[k], name, level));
    }
}

// ---------------------------------------------------------------------------
// what is answered
// ---------------------------------------------------------------------------

/// Whether an answer gives, for each of some changes, the name of the monitor and the
/// brightness that was asked for.
pub open spec fn gives_each(messages: Seq<String>, changes: Seq<Change>, screens: Screens) -> bool {
    &&& messages.len() == changes.len()
    &&& forall|k: int|
        0 <= k < changes.len() ==> (#[trigger] messages[k])@
            == screens.list[changes[k].index as int].name + ": "@ + decimal(
            changes[k].target as nat,
        )
}

/// Changes that were all made at once are answered with the brightness of each monitor,
/// as a success; or, where the commands could not be run, with the reason, as a failure.
pub proof fn law_changes_at_once_are_answered(
    settlement: Settlement,
    next: Settled,
    outcomes: Seq<CommandOutcome>,
    screens: Screens,
    after: Screens,
    config: DaemonOptions,
)
    requires
        settlement.leads_to(next, outcomes, screens, after, config),
        settlement.holder.messages@.len() == 0,
        settlement.fading@.len() == 0,
    ensures
        next is Respond,
        next->Respond_reply.socket == settlement.holder.socket,
        next->Respond_task.inputs == settlement.inputs,
        next->Respond_task.held == settlement.held,
        refresh_fault(outcomes, settlement.plan.auto_remove_displays) is None ==> (
        next->Respond_reply.response.exit_status == ExitStatus::Success && gives_each(
            next->Respond_reply.response.messages@,
            settlement.settled@,
            screens,
        )),
        refresh_fault(outcomes, settlement.plan.auto_remove_displays) matches Some(reason) ==> (
        next->Respond_reply.response.exit_status == ExitStatus::Failure
            && next->Respond_reply.response.messages@.len() == 1
            && next->Respond_reply.response.messages@[0]@ == "Failed to refresh brightness: "@
            + reason),
{
    let reply = next->Respond_reply;
    let told = settlement.holder.queued() + settled_notes(
        settlement.settled@,
        screens,
        refresh_fault(outcomes, settlement.plan.auto_remove_displays),
    );
    law_answers_say_what_was_queued(reply, settlement.holder.socket, told);
    if refresh_fault(outcomes, settlement.plan.auto_remove_displays) is Some {
        assert(told[0].1);
    }
}

/// What is said of a monitor that is not connected.
pub open spec fn said_of(name: Seq<char>) -> Seq<char> {
    "Monitor "@ + name + " is not connected"@
}

/// A request that is meant for a monitor that is not connected is refused: this is said
/// of each such monitor, and no brightness is changed or held.
pub proof fn law_disconnected_monitors_are_refused(
    task: BrightnessTask,
    turn: Turn,
    screens: Screens,
    after: Screens,
    config: DaemonOptions,
    k: int,
)
    requires
        task.queue(screens).len() > 0,
        0 <= k < task.next_relevant(screens, config).len(),
        !screens.enabled.contains(task.next_relevant(screens, config)[k]),
        task.leads_to(turn, screens, after, config),
    ensures
        turn is Respond,
        turn->Respond_reply.response.exit_status == ExitStatus::Failure,
        texts(turn->Respond_reply.response.messages@).contains(
            said_of(screens.list[task.next_relevant(screens, config)[k] as int].name),
        ),
        turn->Respond_task.held@ == task.held@,
        changes_no_light(screens, after),
{
    let meant = task.next_relevant(screens, config);
    let said = complaints(meant, screens);
    let m = lemma_complaint_for(meant, screens, k);
    let before = task.queue(screens)[0].socket_message_holder.queued();
    let told = before + said;
    let reply = turn->Respond_reply;
    law_answers_say_what_was_queued(reply, task.queue(screens)[0].socket_message_holder.socket, told);
    let place = before.len() + m;
    assert(told[place] == said[m]);
    assert(reply.response.messages@[place]@ == told[place].0);
    assert(texts(reply.response.messages@)[place] == reply.response.messages@[place]@);
}

/// Whether levels, nightlights and who holds a brightness are as before on every
/// monitor.
pub open spec fn changes_no_light(screens: Screens, after: Screens) -> bool {
    &&& after.list.len() == screens.list.len()
    &&& forall|i: int|
        0 <= i < screens.list.len() ==> (#[trigger] after.list[i]).light.level
            == screens.list[i].light.level && after.list[i].light.nightlight
            == screens.list[i].light.nightlight && after.list[i].light.held
            == screens.list[i].light.held
}

/// A request that is meant for no monitor is refused, and this is all that is said.
pub proof fn law_requests_for_nobody_are_refused(
    task: BrightnessTask,
    turn: Turn,
    screens: Screens,
    after: Screens,
    config: DaemonOptions,
)
    requires
        task.queue(screens).len() > 0,
        task.queue(screens)[0].socket_message_holder.messages@.len() == 0,
        task.next_relevant(screens, config).len() == 0,
        task.leads_to(turn, screens, after, config),
    ensures
        turn is Respond,
        turn->Respond_reply.socket == task.queue(screens)[0].socket_message_holder.socket,
        turn->Respond_reply.response.exit_status == ExitStatus::Failure,
        turn->Respond_reply.response.messages@.len() == 1,
        turn->Respond_reply.response.messages@[0]@ == "No monitors found to change brightness"@,
        turn->Respond_task.inputs@ == task.queue(screens).skip(1),
        changes_no_light(screens, after),
{
    let told = task.queue(screens)[0].socket_message_holder.queued().push(
        crate::daemon::engine::brightness::no_monitors(),
    );
    law_answers_say_what_was_queued(
        turn->Respond_reply,
        task.queue(screens)[0].socket_message_holder.socket,
        told,
    );
    assert(told[0].1);
    assert(task.queue(screens).drop_first() =~= task.queue(screens).skip(1));
}

/// A request that is meant for monitors all of which are connected is not refused: it
/// is carried out, or, where somebody else holds the brightness of one of them, handed
/// over to them.
pub proof fn law_requests_for_connected_monitors_are_taken(
    task: BrightnessTask,
    turn: Turn,
    screens: Screens,
    after: Screens,
    config: DaemonOptions,
)
    requires
        task.queue(screens).len() > 0,
        task.next_relevant(screens, config).len() > 0,
        screens.has_all(task.next_relevant(screens, config)),
        forall|k: int|
            0 <= k < task.next_relevant(screens, config).len() ==> screens.enabled.contains(
                #[trigger] task.next_relevant(screens, config)[k],
            ),
        task.leads_to(turn, screens, after, config),
    ensures
        turn is Measure || turn is HandedOver,
        turn is HandedOver <==> exists|k: int|
            0 <= k < task.next_relevant(screens, config).len() && screens.list[(
            #[trigger] task.next_relevant(screens, config)[k]) as int].light.held
                && !task.held@.contains(task.next_relevant(screens, config)[k]),
        turn matches Turn::HandedOver { to } ==> task.next_relevant(screens, config).contains(to)
            && screens.list[to as int].light.held && !task.held@.contains(to),
{
    let meant = task.next_relevant(screens, config);
    lemma_no_complaint(meant, screens);
    lemma_blocked(meant, task.held@, screens);
}

proof fn lemma_blocked(meant: Seq<usize>, held: Seq<usize>, screens: Screens)
    ensures
        match first_blocked(meant, held, screens) {
            Some(to) => meant.contains(to) && screens.list[to as int].light.held && !held.contains(
                to,
            ) && exists|k: int|
                0 <= k < meant.len() && screens.list[(#[trigger] meant[k]) as int].light.held
                    && !held.contains(meant[k]),
            None => forall|k: int|
                0 <= k < meant.len() ==> !screens.list[(#[trigger] meant[k]) as int].light.held
                    || held.contains(meant[k]),
        },
    decreases meant.len(),
{
    if meant.len() > 0 {
        let front = meant.drop_last();
        lemma_blocked(front, held, screens);
        match first_blocked(meant, held, screens) {
            Some(to) => {
                if first_blocked(front, held, screens) is Some {
                    let k = front.index_of(to);
                    assert(meant[k] == to);
                } else {
                    assert(meant[meant.len() - 1] == to);
                }
            },
            None => {
                assert forall|k: int| 0 <= k < meant.len() implies !screens.list[(
                #[trigger] meant[k]) as int].light.held || held.contains(meant[k]) by {
                    if k < front.len() {
                        assert(front[k] == meant[k]);
                    }
                }
            },
        }
    }
}

proof fn lemma_no_complaint(meant: Seq<usize>, screens: Screens)
    requires
        forall|k: int| 0 <= k < meant.len() ==> screens.enabled.contains(#[trigger] meant[k]),
    ensures
        complaints(meant, screens).len() == 0,
    decreases meant.len(),
{
    if meant.len() > 0 {
        let front = meant.drop_last();
        assert forall|k: int| 0 <= k < front.len() implies screens.enabled.contains(
            #[trigger] front[k],
        ) by {
            assert(front[k] == meant[k]);
        }
        lemma_no_complaint(front, screens);
        assert(screens.enabled.contains(meant[meant.len() - 1]));
    }
}

proof fn lemma_complaint_for(meant: Seq<usize>, screens: Screens, k: int) -> (m: int)
    requires
        0 <= k < meant.len(),
        !screens.enabled.contains(meant[k]),
    ensures
        0 <= m < complaints(meant, screens).len(),
        complaints(meant, screens)[m].0 == said_of(screens.list[meant[k] as int].name),
        complaints(meant, screens)[m].1,
    decreases meant.len(),
{
    let front = meant.drop_last();
    if k < front.len() {
        lemma_complaint_for(front, screens, k)
    } else {
        complaints(front, screens).len() as int
    }
}

// ---------------------------------------------------------------------------
// fades
// ---------------------------------------------------------------------------

/// A fade has as many steps as fit into its duration, and they are as far apart as the
/// configuration says.
pub proof fn law_fade_takes_its_time(config: DaemonOptions)
    requires
        0 < config.fade_options.step_duration <= config.fade_options.total_duration,
    ensures
        plan_of(config).step_duration == config.fade_options.step_duration,
        plan_of(config).auto_remove_displays == config.auto_remove_displays,
        plan_of(config).steps >= 1,
        plan_of(config).steps * config.fade_options.step_duration
            <= config.fade_options.total_duration,
        config.fade_options.total_duration < (plan_of(config).steps + 1)
            * config.fade_options.step_duration,
{
    let total = config.fade_options.total_duration as int;
    let step = config.fade_options.step_duration as int;
    let steps = total / step;
    vstd::arithmetic::div_mod::lemma_fundamental_div_mod(total, step);
    vstd::arithmetic::div_mod::lemma_mod_bound(total, step);
    assert(steps * step <= total < (steps + 1) * step && 1 <= steps <= total) by (nonlinear_arith)
        requires
            total == step * steps + total % step,
            0 <= total % step < step,
            0 < step <= total,
    ;
}

/// Where changes are to be faded into, a fade of exactly these changes begins behind
/// those that were made at once: its monitors, and no others, count as fading from now
/// on, no brightness changes yet, and commands are run for its monitors.
pub proof fn law_fade_begins(
    settlement: Settlement,
    next: Settled,
    outcomes: Seq<CommandOutcome>,
    screens: Screens,
    after: Screens,
    config: DaemonOptions,
    i: usize,
)
    requires
        settlement.leads_to(next, outcomes, screens, after, config),
        settlement.fading@.len() > 0,
        i < screens.list.len(),
    ensures
        next is Begin,
        next->fade.fading@ == settlement.fading@,
        next->fade.held@ == settlement.held@,
        next->fade.inputs@ == settlement.inputs@,
        next->fade.holder.socket == settlement.holder.socket,
        next->fade.plan == settlement.plan,
        next->fade.steps_left + 1 == settlement.plan.steps,
        after.list.len() == screens.list.len(),
        after.list[i as int].light.level == screens.list[i as int].light.level,
        after.list[i as int].light.held == screens.list[i as int].light.held,
        indices_of(settlement.fading@).contains(i) ==> after.list[i as int].light.is_fading,
        !indices_of(settlement.fading@).contains(i) ==> after.list[i as int].light.is_fading
            == screens.list[i as int].light.is_fading,
        next->refresh.monitors@.contains(i) <==> indices_of(settlement.fading@).contains(i),
        next->fade.commanded@ == next->refresh.monitors@,
        next->refresh.auto_remove_displays == settlement.plan.auto_remove_displays,
{
    lemma_monitors_for(indices_of(settlement.fading@), config, i);
}

/// The last step of a fade brings each of its monitors to exactly the brightness that
/// was asked for and leaves all others where they are.
pub proof fn law_fade_ends_exactly(fade: Fade, screens: Screens, i: usize)
    requires
        are_ascending(fade.fading@),
        screens.has_all(indices_of(fade.fading@)),
        i < screens.list.len(),
    ensures
        forall|k: int|
            0 <= k < fade.fading@.len() && (#[trigger] fade.fading@[k]).index == i
                ==> fade.at_target(screens).list[i as int].light.level.is_exactly(
                fade.fading@[k].target as nat,
            ),
        !indices_of(fade.fading@).contains(i) ==> fade.at_target(screens).list[i as int]
            == screens.list[i as int],
{
    assert forall|k: int|
        0 <= k < fade.fading@.len() && (
        #[trigger] fade.fading@[k]).index == i implies fade.at_target(
    screens).list[i as int].light.level.is_exactly(fade.fading@[k].target as nat) by {
        assert(all_different(fade.fading@));
        law_change_ends_exactly(screens, fade.fading@, k);
    }
    if !indices_of(fade.fading@).contains(i) {
        law_others_stay(
            screens,
            indices_of(fade.fading@),
            crate::daemon::engine::brightness::target_levels(fade.fading@),
            true,
            i,
        );
    }
}

/// A fade that went well from the beginning to the end is answered with the brightness
/// of each of its monitors behind what was said before it.
pub proof fn law_fade_is_answered(
    fade: Fade,
    reply: Reply,
    outcomes: Seq<CommandOutcome>,
    screens: Screens,
)
    requires
        fade.ends_with(reply, outcomes, screens),
        fade.holder.messages@.len() == 0,
    ensures
        reply.socket == fade.holder.socket,
        refresh_fault(outcomes, false) is None ==> reply.response.exit_status
            == ExitStatus::Success && gives_each(
            reply.response.messages@,
            fade.fading@,
            screens,
        ),
        refresh_fault(outcomes, false) matches Some(reason) ==> reply.response.exit_status
            == ExitStatus::Failure && reply.response.messages@.len() == fade.fading@.len() + 1
            && reply.response.messages@[0]@ == "Failed to set brightness during fade: "@ + reason,
{
    let told = fade.holder.queued() + crate::daemon::engine::brightness::fault_notes(
        "Failed to set brightness during fade: "@,
        refresh_fault(outcomes, false),
    ) + crate::daemon::engine::brightness::change_notes(fade.fading@, screens);
    law_answers_say_what_was_queued(reply, fade.holder.socket, told);
    if refresh_fault(outcomes, false) is Some {
        assert(told[0].1);
    }
}

// ---------------------------------------------------------------------------
// which monitors are meant
// ---------------------------------------------------------------------------

/// A request that chooses monitors is meant for these, and one that chooses none for
/// those of the configuration: a name for the reported monitor of that name, in any
/// case; `Active` for the active one; the others for exactly the connected ones.
pub proof fn law_requests_are_meant_for(
    input: BrightnessInput,
    screens: Screens,
    config: DaemonOptions,
    i: usize,
)
    requires
        screens.is_sound(),
    ensures
        ({
            let named = if input.override_monitor is Some {
                input.override_monitor->0
            } else {
                config.monitor_default_behavior
            };
            let meant = screens.chosen(choice_of(input, config));
            match named {
                MonitorOverride::Active => meant == seq![screens.active],
                MonitorOverride::Specified { adapter_name } => meant.len() <= 1 && (meant.contains(i)
                    <==> i < screens.list.len() && screens.named.contains(i) && ascii_lower(
                    screens.list[i as int].name,
                ) == ascii_lower(adapter_name@)),
                _ => meant.contains(i) <==> screens.enabled.contains(i),
            }
        }),
{
    lemma_ascending(screens.enabled, screens.list.len());
    let meant = screens.chosen(choice_of(input, config));
    let named = if input.override_monitor is Some {
        input.override_monitor->0
    } else {
        config.monitor_default_behavior
    };
    match named {
        MonitorOverride::Specified { adapter_name } => {
            lemma_position(screens.list, adapter_name@);
            if i < screens.list.len() && ascii_lower(screens.list[i as int].name) == ascii_lower(
                adapter_name@,
            ) {
                crate::daemon::engine::display::lemma_position_is(
                    screens,
                    i as int,
                    adapter_name@,
                );
            }
            if screens.found(adapter_name@) is Some {
                assert(meant[0] == screens.found(adapter_name@)->0);
            }
        },
        MonitorOverride::Active => {},
        _ => {
            if meant.contains(i) {
                let k = meant.index_of(i);
                assert(screens.enabled.contains(meant[k]));
            }
        },
    }
}

/// A request whose monitors are written down is meant for these, and another one for those
/// that it chooses now.
pub proof fn law_written_down_monitors_are_meant(
    request: ForwardedBrightnessInput,
    screens: Screens,
    config: DaemonOptions,
)
    ensures
        request.info matches BrightnessInputInfo::Processed { relevant_monitor_indices } ==> relevant(
            request,
            screens,
            config,
        ) == relevant_monitor_indices@,
        request.info is UnProcessed ==> relevant(request, screens, config) == screens.chosen(
            choice_of(request.brightness_input, config),
        ),
{
}

// ---------------------------------------------------------------------------
// waiting requests
// ---------------------------------------------------------------------------

/// Requests that are handed over come to the holder of the monitor whole and in order,
/// behind those that already wait there: the first with its monitors written down, the
/// others as they are. The task lets go of what it held.
pub proof fn law_requests_are_handed_over_whole(
    task: BrightnessTask,
    turn: Turn,
    screens: Screens,
    after: Screens,
    config: DaemonOptions,
    i: usize,
)
    requires
        task.queue(screens).len() > 0,
        screens.has_all(task.next_relevant(screens, config)),
        task.leads_to(turn, screens, after, config),
        turn is HandedOver,
        i < screens.list.len(),
    ensures
        ({
            let to = turn->to as int;
            let queue = task.queue(screens);
            let before = screens.list[to].light.inbox;
            let inbox = after.list[to].light.inbox;
            &&& inbox.len() == before.len() + queue.len()
            &&& forall|k: int| 0 <= k < before.len() ==> #[trigger] inbox[k] == before[k]
            &&& inbox[before.len() as int].brightness_input == queue[0].brightness_input
            &&& inbox[before.len() as int].socket_message_holder == queue[0].socket_message_holder
            &&& inbox[before.len() as int].info matches BrightnessInputInfo::Processed {
                relevant_monitor_indices,
            } && relevant_monitor_indices@ == task.next_relevant(screens, config)
            &&& forall|k: int|
                1 <= k < queue.len() ==> #[trigger] inbox[before.len() + k] == queue[k]
            &&& after.list[i as int].light.level == screens.list[i as int].light.level
            &&& after.list[i as int].light.held <==> screens.list[i as int].light.held
                && !task.held@.contains(i)
        }),
{
    let queue = task.queue(screens);
    let meant = task.next_relevant(screens, config);
    lemma_blocked(meant, task.held@, screens);
    let to = turn->to;
    let m = meant.index_of(to);
    assert(meant[m] < screens.list.len());
    let released = crate::daemon::engine::brightness::let_go(
        crate::daemon::engine::brightness::emptied(screens, task.held@),
        task.held@,
    );
    let processed = choose|processed: ForwardedBrightnessInput| #[trigger]
        is_processed_form(processed, queue[0], meant) && after
            == crate::daemon::engine::brightness::passed_on(
            released,
            to,
            seq![processed] + queue.drop_first(),
        );
    let sent = seq![processed] + queue.drop_first();
    let before = screens.list[to as int].light.inbox;
    let inbox = after.list[to as int].light.inbox;
    assert(inbox == before + sent);
    assert forall|k: int| 1 <= k < queue.len() implies #[trigger] inbox[before.len() + k]
        == queue[k] by {
        assert(sent[k] == queue.drop_first()[k - 1]);
    }
}

/// The requests that a task has to carry out are its own first, and behind them those that
/// wait at a monitor that it holds, in the order in which they came there.
pub proof fn law_waiting_requests_come_behind(
    task: BrightnessTask,
    screens: Screens,
    index: usize,
    k: int,
)
    requires
        task.held@ == seq![index],
    ensures
        0 <= k < task.inputs@.len() ==> task.queue(screens)[k] == task.inputs@[k],
        task.queue(screens).len() == task.inputs@.len()
            + screens.list[index as int].light.inbox.len(),
        0 <= k < screens.list[index as int].light.inbox.len() ==> task.queue(
            screens,
        )[task.inputs@.len() + k] == screens.list[index as int].light.inbox[k],
{
    let held = task.held@;
    assert(held.drop_last() =~= Seq::<usize>::empty());
    assert(!held.drop_last().contains(index));
    assert(waiting_at(held.drop_last(), screens) =~= Seq::<ForwardedBrightnessInput>::empty());
    assert(waiting_at(held, screens) =~= screens.list[index as int].light.inbox);
}

/// A look for requests during a fade takes the oldest request of a fading monitor. It is
/// queued behind the others, just as it is; it cuts the fade short exactly if it says so.
pub proof fn law_heard_requests_are_queued(fade: Fade, found: Heard, screens: Screens, after: Screens)
    requires
        fade.wf(screens),
        fade.hears(found, screens, after),
        !(found is Nothing),
    ensures
        exists|k: int| #[trigger] is_heard_from(fade, k, found, screens, after),
{
    crate::daemon::engine::brightness_laws::lemma_heard_bounds(fade.fading@, screens);
    let k = crate::daemon::engine::fade::first_heard(fade.fading@, screens)->0;
    assert(indices_of(fade.fading@)[k] < screens.list.len());
    let inputs = match found {
        Heard::Interrupted { task, .. } => task.inputs@,
        Heard::Queued(next) => next.inputs@,
        Heard::Nothing(same) => same.inputs@,
    };
    assert(inputs.drop_last() =~= fade.inputs@);
    assert(is_heard_from(fade, k, found, screens, after));
}

/// Whether what was heard is the oldest request of one of the fading monitors, queued last.
pub open spec fn is_heard_from(
    fade: Fade,
    k: int,
    found: Heard,
    screens: Screens,
    after: Screens,
) -> bool {
    let index = fade.fading@[k].index as int;
    let before = screens.list[index].light.inbox;
    let inputs = match found {
        Heard::Interrupted { task, .. } => task.inputs@,
        Heard::Queued(next) => next.inputs@,
        Heard::Nothing(same) => same.inputs@,
    };
    &&& 0 <= k < fade.fading@.len()
    &&& before.len() > 0
    &&& after.list[index].light.inbox == before.skip(1)
    &&& inputs.len() == fade.inputs@.len() + 1
    &&& inputs.drop_last() == fade.inputs@
    &&& inputs.last() == before[0]
    &&& found is Interrupted <==> before[0].brightness_input.terminate_fade
    &&& found matches Heard::Interrupted { reply, task } ==> reply.socket == fade.holder.socket
        && task.held@ == fade.held@
    &&& found matches Heard::Queued(next) ==> next.fading@ == fade.fading@ && next.held@
        == fade.held@ && next.steps_left == fade.steps_left && next.holder == fade.holder
}

/// Levels that are given to different monitors are the levels that they have then.
pub proof fn law_given_levels_are_set(
    screens: Screens,
    indices: Seq<usize>,
    levels: Seq<Level>,
    k: int,
)
    requires
        levels.len() == indices.len(),
        indices.no_duplicates(),
        0 <= k < indices.len(),
        indices[k] < screens.list.len(),
    ensures
        with_levels(screens, indices, levels).list[indices[k] as int].light.level == levels[k],
        with_levels(screens, indices, levels).list[indices[k] as int].light.held
            == screens.list[indices[k] as int].light.held,
        with_levels(screens, indices, levels).list[indices[k] as int].light.nightlight
            == screens.list[indices[k] as int].light.nightlight,
        with_levels(screens, indices, levels).list[indices[k] as int].name
            == screens.list[indices[k] as int].name,
        with_levels(screens, indices, levels).enabled == screens.enabled,
{
    lemma_level_at(indices, levels, k, screens.list[indices[k] as int].light.level);
}

proof fn lemma_level_at(indices: Seq<usize>, levels: Seq<Level>, k: int, otherwise: Level)
    requires
        levels.len() >= indices.len(),
        indices.no_duplicates(),
        0 <= k < indices.len(),
    ensures
        level_at(indices, levels, indices[k], otherwise) == levels[k],
    decreases indices.len(),
{
    let front = indices.drop_last();
    if k < front.len() {
        assert(indices[indices.len() - 1] != indices[k]);
        lemma_level_at(front, levels, k, otherwise);
    }
}

/// Whether monitors fade is noted of exactly the monitors it is said of, and nothing else
/// of them changes.
pub proof fn law_fading_is_noted(
    screens: Screens,
    indices: Seq<usize>,
    is_fading: bool,
    i: usize,
)
    requires
        i < screens.list.len(),
    ensures
        ({
            let before = screens.list[i as int];
            let after = with_fading(screens, indices, is_fading).list[i as int];
            &&& indices.contains(i) ==> after.light.is_fading == is_fading
            &&& !indices.contains(i) ==> after.light.is_fading == before.light.is_fading
            &&& after.light.level == before.light.level
            &&& after.light.held == before.light.held
            &&& after.light.nightlight == before.light.nightlight
            &&& after.light.inbox == before.light.inbox
            &&& after.name == before.name
        }),
        with_fading(screens, indices, is_fading).enabled == screens.enabled,
{
}

/// A fault during a fade is told behind what was said before it, as an error, and the fade
/// goes on as it is; without a fault nothing is said.
pub proof fn law_faults_are_told(
    fade: Fade,
    next: Fade,
    what: Seq<char>,
    fault: Option<Seq<char>>,
)
    requires
        fade.tells_fault(next, what, fault),
    ensures
        next.fading == fade.fading,
        next.held == fade.held,
        next.inputs == fade.inputs,
        next.plan == fade.plan,
        next.steps_left == fade.steps_left,
        next.holder.socket == fade.holder.socket,
        fault is None ==> next.holder.messages@.len() == fade.holder.messages@.len(),
        fault matches Some(reason) ==> next.holder.messages@.len() == fade.holder.messages@.len()
            + 1 && next.holder.messages@.last().message@ == what + reason
            && next.holder.messages@.last().is_error,
{
    let before = fade.holder.queued();
    let queued = next.holder.queued();
    assert(queued.len() == next.holder.messages@.len());
    if fault is Some {
        assert(queued.len() == before.len() + 1);
        assert(queued[before.len() as int] == (
            next.holder.messages@[before.len() as int].message@,
            next.holder.messages@[before.len() as int].is_error,
        ));
    }
}

/// How the commands for the changes that were made at once end decides which monitors stay
/// connected, and nothing else of the monitors but that and whether they fade.
pub proof fn law_ends_of_commands_are_heeded(
    settlement: Settlement,
    next: Settled,
    outcomes: Seq<CommandOutcome>,
    screens: Screens,
    after: Screens,
    config: DaemonOptions,
    i: usize,
)
    requires
        settlement.leads_to(next, outcomes, screens, after, config),
        i < screens.list.len(),
    ensures
        after.enabled == after_refresh(
            screens,
            settlement.refreshed@,
            outcomes,
            settlement.plan.auto_remove_displays,
        ).enabled,
        after.active == screens.active,
        after.named == screens.named,
        after.list.len() == screens.list.len(),
        after.list[i as int].name == screens.list[i as int].name,
        after.list[i as int].light.level == screens.list[i as int].light.level,
        after.list[i as int].light.held == screens.list[i as int].light.held,
        after.list[i as int].light.nightlight == screens.list[i as int].light.nightlight,
        after.list[i as int].light.inbox == screens.list[i as int].light.inbox,
        next is Respond ==> after.list[i as int] == screens.list[i as int],
        next is Begin <==> settlement.fading@.len() > 0,
{
}

} // verus!
