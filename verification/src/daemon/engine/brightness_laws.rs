//! What holds of changes of brightness whatever requests arrive.
use vstd::multiset::Multiset;
use vstd::prelude::*;

use crate::daemon::config::persistent::DaemonOptions;
use crate::daemon::config::runtime::{ForwardedBrightnessInput, Light};
use crate::daemon::engine::brightness::{
    changes_of, emptied, first_blocked, holds, in_order, indices_of, is_processed_form,
    lemma_in_order, lemma_waiting_somewhere, let_go, level_at, passed_on, taken, target_levels,
    target_of, waiting_at, with_fading, with_levels, BrightnessTask, Change, Turn, HIGHEST_ADJUSTED,
    LOWEST_ADJUSTED,
};
use crate::daemon::engine::commands::{after_refresh, CommandOutcome};
use crate::daemon::engine::display::{lemma_position, Screen, Screens};
use crate::daemon::engine::display_laws::{law_known_monitors_stay, lemma_reports};
use crate::daemon::engine::fade::{faded_part, fades, first_heard, Fade, Heard};
use crate::daemon::engine::monitor::Display;
use crate::daemon::engine::nightlight::{nightlight_let_go, switched};
use crate::daemon::engine::requests::activated;
use crate::daemon::util::tables::BrightnessStateInternal;
use crate::level::{law_percent_level_exact, percent_level, Level};
use crate::shared::{BrightnessChange, BrightnessInput};

verus! {

// ---------------------------------------------------------------------------
// one task at a time
// ---------------------------------------------------------------------------

/// Whether two lists of positions have none in common.
pub open spec fn apart(mine: Seq<usize>, theirs: Seq<usize>) -> bool {
    forall|i: usize| mine.contains(i) ==> !#[trigger] theirs.contains(i)
}

/// Whether nothing but the waiting requests has changed on the monitors at some
/// positions.
pub open spec fn untouched(before: Screens, after: Screens, indices: Seq<usize>) -> bool {
    forall|k: int|
        0 <= k < indices.len() ==> ({
            let index = (#[trigger] indices[k]) as int;
            after.list[index] == (Screen {
                light: Light {
                    inbox: after.list[index].light.inbox,
                    ..before.list[index].light
                },
                ..before.list[index]
            })
        })
}

/// The monitors that a task holds behind its turn.
pub open spec fn held_behind(turn: Turn) -> Seq<usize> {
    match turn {
        Turn::Finished => Seq::empty(),
        Turn::HandedOver { .. } => Seq::empty(),
        Turn::Respond { task, .. } => task.held@,
        Turn::Measure(measurement) => indices_of(measurement.changes@),
    }
}

/// The brightness of a monitor is held by one task at a time: a turn of one task
/// neither takes nor changes what another task holds.
pub proof fn law_one_holder_at_a_time(
    task: BrightnessTask,
    turn: Turn,
    screens: Screens,
    after: Screens,
    config: DaemonOptions,
    theirs: Seq<usize>,
)
    requires
        screens.is_sound(),
        task.wf(screens),
        task.queue(screens).len() > 0 ==> screens.has_all(task.next_relevant(screens, config)),
        task.leads_to(turn, screens, after, config),
        holds(screens, theirs),
        apart(task.held@, theirs),
    ensures
        holds(after, theirs),
        untouched(screens, after, theirs),
        apart(held_behind(turn), theirs),
{
    assert forall|k: int| 0 <= k < theirs.len() implies !task.held@.contains(
        #[trigger] theirs[k],
    ) by {
        assert(theirs.contains(theirs[k]));
    }
    if task.queue(screens).len() > 0 {
        let indices = task.next_relevant(screens, config);
        match turn {
            Turn::HandedOver { to } => {
                lemma_blocked_exists(indices, task.held@, screens);
            },
            Turn::Measure(measurement) => {
                let ordered = in_order(indices, screens.list.len());
                lemma_in_order(indices, screens.list.len());
                assert forall|i: usize|
                    indices_of(measurement.changes@).contains(i) implies !#[trigger] theirs.contains(
                    i,
                ) by {
                    let k = indices_of(measurement.changes@).index_of(i);
                    assert(ordered[k] == i);
                    lemma_unblocked(indices, task.held@, screens, i);
                    if theirs.contains(i) {
                        let j = theirs.index_of(i);
                        assert(screens.list[theirs[j] as int].light.held);
                        assert(!task.held@.contains(theirs[j]));
                    }
                }
            },
            _ => {},
        }
    }
}

/// A monitor that is in the way of a task exists.
pub proof fn lemma_blocked_exists(indices: Seq<usize>, held: Seq<usize>, screens: Screens)
    requires
        screens.has_all(indices),
    ensures
        first_blocked(indices, held, screens) matches Some(index) ==> index < screens.list.len(),
    decreases indices.len(),
{
    if indices.len() > 0 {
        let front = indices.drop_last();
        assert forall|k: int| 0 <= k < front.len() implies (#[trigger] front[k])
            < screens.list.len() by {
            assert(front[k] == indices[k]);
        }
        lemma_blocked_exists(front, held, screens);
        assert(indices[indices.len() - 1] < screens.list.len());
    }
}

/// Where nobody is in the way, each monitor is held by the task itself or by nobody.
proof fn lemma_unblocked(indices: Seq<usize>, held: Seq<usize>, screens: Screens, index: usize)
    requires
        first_blocked(indices, held, screens) is None,
        indices.contains(index),
    ensures
        held.contains(index) || !screens.list[index as int].light.held,
    decreases indices.len(),
{
    let k = indices.index_of(index);
    if k < indices.len() - 1 {
        assert(indices.drop_last()[k] == index);
        lemma_unblocked(indices.drop_last(), held, screens, index);
    }
}

/// What a task holds, it goes on holding whatever else the daemon does meanwhile:
/// taking over new displays, dropping monitors whose commands failed, making a
/// monitor the active one, switching a nightlight over.
pub proof fn law_hold_survives(
    screens: Screens,
    held: Seq<usize>,
    displays: Seq<Display>,
    indices: Seq<usize>,
    outcomes: Seq<CommandOutcome>,
    auto_remove_displays: bool,
    new_monitor: Seq<char>,
    index: usize,
)
    requires
        screens.is_sound(),
        screens.list.len() + displays.len() <= usize::MAX,
        holds(screens, held),
        index < screens.list.len(),
    ensures
        holds(screens.overwritten(displays), held),
        holds(after_refresh(screens, indices, outcomes, auto_remove_displays), held),
        holds(activated(new_monitor, screens), held),
        holds(switched(screens, index), held),
        holds(nightlight_let_go(screens, index), held),
{
    let after = screens.overwritten(displays);
    assert forall|k: int| 0 <= k < held.len() implies (#[trigger] held[k]) < after.list.len()
        && after.list[held[k] as int].light.held by {
        law_known_monitors_stay(screens, displays, held[k] as int);
    }
}

/// Giving monitors new levels, or noting that they fade, leaves all others as they
/// are.
pub proof fn law_others_stay(
    screens: Screens,
    indices: Seq<usize>,
    levels: Seq<Level>,
    is_fading: bool,
    i: usize,
)
    requires
        i < screens.list.len(),
        !indices.contains(i),
    ensures
        with_levels(screens, indices, levels).list[i as int] == screens.list[i as int],
        with_fading(screens, indices, is_fading).list[i as int] == screens.list[i as int],
{
    lemma_level_elsewhere(indices, levels, i, screens.list[i as int].light.level);
}

proof fn lemma_level_elsewhere(
    indices: Seq<usize>,
    levels: Seq<Level>,
    index: usize,
    otherwise: Level,
)
    requires
        !indices.contains(index),
    ensures
        level_at(indices, levels, index, otherwise) == otherwise,
    decreases indices.len(),
{
    if indices.len() > 0 {
        assert(indices[indices.len() - 1] != index);
        assert forall|k: int| 0 <= k < indices.drop_last().len() implies indices.drop_last()[k]
            != index by {
            assert(indices[k] != index);
        }
        lemma_level_elsewhere(indices.drop_last(), levels, index, otherwise);
    }
}

// ---------------------------------------------------------------------------
// where changes lead to
// ---------------------------------------------------------------------------

/// An adjustment leads to no less than a tenth of the full brightness and to no more
/// than the full brightness, wherever it starts.
pub proof fn law_adjustment_stays_within_bounds(shift: i8, level: Level)
    ensures
        LOWEST_ADJUSTED <= target_of(Some(BrightnessChange::Adjustment(shift)), level)
            <= HIGHEST_ADJUSTED,
        percent_level(
            target_of(Some(BrightnessChange::Adjustment(shift)), level) as u8,
        ).in_range(),
{
    law_percent_level_exact(target_of(Some(BrightnessChange::Adjustment(shift)), level) as u8);
}

/// An adjustment moves a whole brightness by exactly what was asked for, as long as
/// the bounds do not stand in the way.
pub proof fn law_adjustment_is_exact(shift: i8, percent: u8)
    requires
        LOWEST_ADJUSTED <= percent + shift <= HIGHEST_ADJUSTED,
    ensures
        target_of(Some(BrightnessChange::Adjustment(shift)), percent_level(percent)) == percent
            + shift,
{
    law_percent_level_exact(percent);
}

/// Whether the monitors of some changes are all different.
pub open spec fn all_different(changes: Seq<Change>) -> bool {
    forall|j: int, k: int|
        0 <= j < k < changes.len() ==> (#[trigger] changes[j]).index != (
        #[trigger] changes[k]).index
}

/// The changes that a task makes are changes of different monitors.
pub proof fn law_changes_are_different(
    indices: Seq<usize>,
    change: Option<BrightnessChange>,
    screens: Screens,
)
    requires
        screens.is_sound(),
    ensures
        all_different(changes_of(in_order(indices, screens.list.len()), change, screens)),
{
    lemma_in_order(indices, screens.list.len());
    let ordered = in_order(indices, screens.list.len());
    let changes = changes_of(ordered, change, screens);
    assert forall|j: int, k: int| 0 <= j < k < changes.len() implies (#[trigger] changes[j]).index
        != (#[trigger] changes[k]).index by {
        assert(ordered[j] < ordered[k]);
    }
}

/// A change that was made, at once or as the last step of a fade, has brought the
/// monitor to exactly the brightness that was asked for.
pub proof fn law_change_ends_exactly(screens: Screens, changes: Seq<Change>, k: int)
    requires
        all_different(changes),
        screens.has_all(indices_of(changes)),
        0 <= k < changes.len(),
    ensures
        ({
            let after = with_levels(screens, indices_of(changes), target_levels(changes));
            let level = after.list[changes[k].index as int].light.level;
            level == percent_level(changes[k].target) && level.is_exactly(changes[k].target as nat)
        }),
{
    assert(indices_of(changes)[k] < screens.list.len());
    law_percent_level_exact(changes[k].target);
    lemma_level_of_last(changes, target_levels(changes), changes.len() as int, k, screens);
    assert(indices_of(changes).take(changes.len() as int) =~= indices_of(changes));
}

proof fn lemma_level_of_last(
    changes: Seq<Change>,
    levels: Seq<Level>,
    count: int,
    k: int,
    screens: Screens,
)
    requires
        all_different(changes),
        0 <= k < count <= changes.len(),
        levels.len() == changes.len(),
    ensures
        level_at(
            indices_of(changes).take(count),
            levels,
            changes[k].index,
            screens.list[changes[k].index as int].light.level,
        ) == levels[k],
    decreases count,
{
    let part = indices_of(changes).take(count);
    assert(part.last() == changes[count - 1].index);
    if k < count - 1 {
        assert(changes[k].index != changes[count - 1].index);
        assert(part.drop_last() =~= indices_of(changes).take(count - 1));
        lemma_level_of_last(changes, levels, count - 1, k, screens);
    }
}

/// Every change is either made at once or faded into, and only changes of connected
/// monitors are faded into.
pub proof fn law_every_change_is_made(
    changes: Seq<Change>,
    shifts: Seq<u8>,
    input: BrightnessInput,
    screens: Screens,
    config: DaemonOptions,
)
    ensures
        ({
            let settled = faded_part(changes, shifts, input, screens, config, false);
            let faded = faded_part(changes, shifts, input, screens, config, true);
            &&& settled.len() + faded.len() == changes.len()
            &&& forall|k: int|
                0 <= k < changes.len() ==> settled.contains(#[trigger] changes[k])
                    || faded.contains(changes[k])
            &&& forall|k: int|
                0 <= k < faded.len() ==> screens.enabled.contains((#[trigger] faded[k]).index)
        }),
    decreases changes.len(),
{
    if changes.len() > 0 {
        let front = changes.drop_last();
        law_every_change_is_made(front, shifts, input, screens, config);
        let settled = faded_part(changes, shifts, input, screens, config, false);
        let faded = faded_part(changes, shifts, input, screens, config, true);
        let settled_before = faded_part(front, shifts, input, screens, config, false);
        let faded_before = faded_part(front, shifts, input, screens, config, true);
        assert forall|k: int| 0 <= k < changes.len() implies settled.contains(#[trigger] changes[k])
            || faded.contains(changes[k]) by {
            if k < front.len() {
                assert(front[k] == changes[k]);
                if settled_before.contains(changes[k]) {
                    let j = settled_before.index_of(changes[k]);
                    assert(settled[j] == changes[k]);
                } else {
                    let j = faded_before.index_of(changes[k]);
                    assert(faded[j] == changes[k]);
                }
            } else if fades(changes.last(), shifts[changes.len() - 1], input, screens, config) {
                assert(faded[faded_before.len() as int] == changes[k]);
            } else {
                assert(settled[settled_before.len() as int] == changes[k]);
            }
        }
    }
}

/// Where a request says not to fade, every change is made at once.
proof fn lemma_nothing_fades(
    changes: Seq<Change>,
    shifts: Seq<u8>,
    input: BrightnessInput,
    screens: Screens,
    config: DaemonOptions,
)
    requires
        input.override_fade == Some(false),
    ensures
        faded_part(changes, shifts, input, screens, config, false) == changes,
        faded_part(changes, shifts, input, screens, config, true) == Seq::<Change>::empty(),
    decreases changes.len(),
{
    if changes.len() > 0 {
        lemma_nothing_fades(changes.drop_last(), shifts, input, screens, config);
        assert(changes.drop_last().push(changes.last()) =~= changes);
    } else {
        assert(changes =~= Seq::<Change>::empty());
    }
}

/// A request to set a brightness without fading brings every monitor that it is
/// meant for to exactly that brightness.
pub proof fn law_set_is_reached(
    task: BrightnessTask,
    turn: Turn,
    screens: Screens,
    after: Screens,
    config: DaemonOptions,
    shifts: Seq<u8>,
    percent: u8,
    i: usize,
)
    requires
        screens.is_sound(),
        task.queue(screens).len() > 0,
        screens.has_all(task.next_relevant(screens, config)),
        task.leads_to(turn, screens, after, config),
        turn is Measure,
        task.queue(screens)[0].brightness_input.brightness == Some(BrightnessChange::SetTo(percent)),
        task.queue(screens)[0].brightness_input.override_fade == Some(false),
        task.next_relevant(screens, config).contains(i),
    ensures
        ({
            let settled = turn->Measure_0.at_once(shifts, after, config);
            let level = with_levels(
                after,
                indices_of(settled),
                target_levels(settled),
            ).list[i as int].light.level;
            level == percent_level(percent) && level.is_exactly(percent as nat)
        }),
{
    let indices = task.next_relevant(screens, config);
    let ordered = in_order(indices, screens.list.len());
    let measurement = turn->Measure_0;
    let changes = measurement.changes@;
    lemma_in_order(indices, screens.list.len());
    law_changes_are_different(
        indices,
        task.queue(screens)[0].brightness_input.brightness,
        screens,
    );
    lemma_nothing_fades(changes, shifts, measurement.input, after, config);
    assert(after.has_all(indices_of(changes))) by {
        assert forall|k: int| 0 <= k < indices_of(changes).len() implies (
        #[trigger] indices_of(changes)[k]) < after.list.len() by {
            assert(indices_of(changes)[k] == ordered[k]);
        }
    }
    assert(i < screens.list.len()) by {
        let k = indices.index_of(i);
        assert(indices[k] < screens.list.len());
    }
    assert(ordered.contains(i));
    let k = ordered.index_of(i);
    assert(changes[k].index == i && changes[k].target == percent);
    law_change_ends_exactly(after, changes, k);
}

// ---------------------------------------------------------------------------
// no request is lost
// ---------------------------------------------------------------------------

/// The connections that requests came from.
pub open spec fn sockets(requests: Seq<ForwardedBrightnessInput>) -> Multiset<u64> {
    Seq::new(requests.len(), |k: int| requests[k].socket_message_holder.socket).to_multiset()
}

/// The connections that the requests came from which were handed to tasks and wait
/// to be taken up.
pub open spec fn waiting(list: Seq<Screen>) -> Multiset<u64>
    decreases list.len(),
{
    if list.len() == 0 {
        Multiset::empty()
    } else {
        waiting(list.drop_last()).add(sockets(list.last().light.inbox))
    }
}

/// The connections whose requests are still with the task behind its turn.
pub open spec fn unanswered(turn: Turn) -> Multiset<u64> {
    match turn {
        Turn::Finished => Multiset::empty(),
        Turn::HandedOver { .. } => Multiset::empty(),
        Turn::Respond { task, .. } => sockets(task.inputs@),
        Turn::Measure(measurement) => sockets(measurement.inputs@).insert(
            measurement.holder.socket,
        ),
    }
}

/// The connections that are answered in a turn.
pub open spec fn answered(turn: Turn) -> Multiset<u64> {
    match turn {
        Turn::Respond { reply, .. } => Multiset::empty().insert(reply.socket),
        _ => Multiset::empty(),
    }
}

proof fn lemma_sockets_push(
    requests: Seq<ForwardedBrightnessInput>,
    request: ForwardedBrightnessInput,
)
    ensures
        sockets(requests.push(request)) == sockets(requests).insert(
            request.socket_message_holder.socket,
        ),
{
    let numbers = Seq::new(
        requests.len(),
        |k: int| requests[k].socket_message_holder.socket,
    );
    let more = Seq::new(
        requests.push(request).len(),
        |k: int| requests.push(request)[k].socket_message_holder.socket,
    );
    assert(more =~= numbers.push(request.socket_message_holder.socket));
    broadcast use vstd::seq_lib::group_to_multiset_ensures;

    assert(more.to_multiset() =~= numbers.to_multiset().insert(
        request.socket_message_holder.socket,
    ));
}

proof fn lemma_sockets_add(
    first: Seq<ForwardedBrightnessInput>,
    second: Seq<ForwardedBrightnessInput>,
)
    ensures
        sockets(first + second) == sockets(first).add(sockets(second)),
    decreases second.len(),
{
    if second.len() == 0 {
        assert(first + second =~= first);
        lemma_sockets_empty(second);
        assert(sockets(first) =~= sockets(first).add(Multiset::empty()));
    } else {
        let front = second.drop_last();
        assert(first + second =~= (first + front).push(second.last()));
        assert(second =~= front.push(second.last()));
        lemma_sockets_add(first, front);
        lemma_sockets_push(first + front, second.last());
        lemma_sockets_push(front, second.last());
        assert(sockets(first + second) =~= sockets(first).add(sockets(second)));
    }
}

proof fn lemma_sockets_empty(requests: Seq<ForwardedBrightnessInput>)
    requires
        requests.len() == 0,
    ensures
        sockets(requests) == Multiset::<u64>::empty(),
{
    broadcast use vstd::seq_lib::group_to_multiset_ensures;

    assert(sockets(requests) =~= Multiset::<u64>::empty());
}

proof fn lemma_sockets_first(requests: Seq<ForwardedBrightnessInput>)
    requires
        requests.len() > 0,
    ensures
        sockets(requests) == sockets(requests.drop_first()).insert(
            requests[0].socket_message_holder.socket,
        ),
{
    let empty = Seq::<ForwardedBrightnessInput>::empty();
    assert(requests =~= empty.push(requests[0]) + requests.drop_first());
    lemma_sockets_empty(empty);
    lemma_sockets_push(empty, requests[0]);
    lemma_sockets_add(empty.push(requests[0]), requests.drop_first());
    assert(sockets(requests) =~= sockets(requests.drop_first()).insert(
        requests[0].socket_message_holder.socket,
    ));
}

/// Requests that wait at the same monitors are the same requests.
proof fn lemma_waiting_same(list: Seq<Screen>, other: Seq<Screen>)
    requires
        list.len() == other.len(),
        forall|i: int|
            0 <= i < list.len() ==> (#[trigger] list[i]).light.inbox == other[i].light.inbox,
    ensures
        waiting(list) == waiting(other),
    decreases list.len(),
{
    if list.len() > 0 {
        assert(list[list.len() - 1].light.inbox == other[list.len() - 1].light.inbox);
        assert forall|i: int| 0 <= i < list.drop_last().len() implies (
        #[trigger] list.drop_last()[i]).light.inbox == other.drop_last()[i].light.inbox by {
            assert(list[i].light.inbox == other[i].light.inbox);
        }
        lemma_waiting_same(list.drop_last(), other.drop_last());
    }
}

/// Requests that come to wait at one monitor come to those that wait anywhere.
proof fn lemma_waiting_at(list: Seq<Screen>, other: Seq<Screen>, at: int, more: Multiset<u64>)
    requires
        list.len() == other.len(),
        0 <= at < list.len(),
        sockets(other[at].light.inbox) == sockets(list[at].light.inbox).add(more),
        forall|i: int|
            0 <= i < list.len() && i != at ==> (#[trigger] list[i]).light.inbox
                == other[i].light.inbox,
    ensures
        waiting(other) == waiting(list).add(more),
    decreases list.len(),
{
    let front = list.drop_last();
    let other_front = other.drop_last();
    if at == list.len() - 1 {
        assert forall|i: int| 0 <= i < front.len() implies (#[trigger] front[i]).light.inbox
            == other_front[i].light.inbox by {
            assert(list[i].light.inbox == other[i].light.inbox);
        }
        lemma_waiting_same(front, other_front);
    } else {
        assert forall|i: int| 0 <= i < front.len() && i != at implies (
        #[trigger] front[i]).light.inbox == other_front[i].light.inbox by {
            assert(list[i].light.inbox == other[i].light.inbox);
        }
        lemma_waiting_at(front, other_front, at, more);
        assert(list[list.len() - 1].light.inbox == other[list.len() - 1].light.inbox);
    }
    assert(waiting(other) =~= waiting(list).add(more));
}

/// The requests that wait at some monitors are taken from those that wait anywhere.
proof fn lemma_gathering(screens: Screens, indices: Seq<usize>)
    requires
        screens.list.len() <= usize::MAX,
        screens.has_all(indices),
    ensures
        waiting(screens.list) == waiting(emptied(screens, indices).list).add(
            sockets(waiting_at(indices, screens)),
        ),
    decreases indices.len(),
{
    if indices.len() == 0 {
        lemma_waiting_same(screens.list, emptied(screens, indices).list);
        lemma_sockets_empty(waiting_at(indices, screens));
        assert(waiting(screens.list) =~= waiting(screens.list).add(Multiset::empty()));
    } else {
        let front = indices.drop_last();
        let last = indices.last();
        let before = emptied(screens, front);
        let after = emptied(screens, indices);
        assert(indices[indices.len() - 1] < screens.list.len());
        assert forall|k: int| 0 <= k < front.len() implies (#[trigger] front[k])
            < screens.list.len() by {
            assert(front[k] == indices[k]);
        }
        lemma_gathering(screens, front);
        assert forall|i: usize| #[trigger] indices.contains(i) <==> (front.contains(i) || i
            == last) by {
            if front.contains(i) {
                let k = front.index_of(i);
                assert(indices[k] == i);
            }
            if indices.contains(i) {
                let k = indices.index_of(i);
                if k < front.len() {
                    assert(front[k] == i);
                }
            }
        }
        if front.contains(last) {
            assert forall|i: int| 0 <= i < before.list.len() implies (
            #[trigger] before.list[i]).light.inbox == after.list[i].light.inbox by {
                assert(indices.contains(i as usize) <==> front.contains(i as usize));
            }
            lemma_waiting_same(before.list, after.list);
        } else {
            let inbox = screens.list[last as int].light.inbox;
            assert(indices.contains(last));
            lemma_sockets_empty(after.list[last as int].light.inbox);
            assert(sockets(inbox) =~= Multiset::empty().add(sockets(inbox)));
            assert forall|i: int| 0 <= i < after.list.len() && i != last implies (
            #[trigger] after.list[i]).light.inbox == before.list[i].light.inbox by {
                assert(indices.contains(i as usize) <==> front.contains(i as usize));
            }
            lemma_waiting_at(after.list, before.list, last as int, sockets(inbox));
            lemma_sockets_add(waiting_at(front, screens), inbox);
            assert(waiting(screens.list) =~= waiting(after.list).add(
                sockets(waiting_at(indices, screens)),
            ));
        }
    }
}

/// No request is lost and none is answered twice: those that wait at a monitor or
/// with the task before its turn are those that wait, are with the task, or were
/// answered behind it.
pub proof fn law_no_request_is_lost(
    task: BrightnessTask,
    turn: Turn,
    screens: Screens,
    after: Screens,
    config: DaemonOptions,
)
    requires
        screens.list.len() <= usize::MAX,
        task.wf(screens),
        task.queue(screens).len() > 0 ==> screens.has_all(task.next_relevant(screens, config)),
        task.leads_to(turn, screens, after, config),
    ensures
        waiting(screens.list).add(sockets(task.inputs@)) == waiting(after.list).add(
            unanswered(turn),
        ).add(answered(turn)),
{
    let queue = task.queue(screens);
    let gathered = emptied(screens, task.held@);
    let released = let_go(gathered, task.held@);
    assert(screens.has_all(task.held@)) by {
        assert forall|k: int| 0 <= k < task.held@.len() implies (#[trigger] task.held@[k])
            < screens.list.len() by {}
    }
    lemma_gathering(screens, task.held@);
    lemma_sockets_add(task.inputs@, waiting_at(task.held@, screens));
    lemma_waiting_same(gathered.list, released.list);
    assert(waiting(screens.list).add(sockets(task.inputs@)) =~= waiting(released.list).add(
        sockets(queue),
    ));
    if queue.len() == 0 {
        lemma_sockets_empty(queue);
    } else {
        lemma_sockets_first(queue);
        let indices = task.next_relevant(screens, config);
        match turn {
            Turn::HandedOver { to } => {
                lemma_blocked_exists(indices, task.held@, screens);
                let processed = choose|processed: ForwardedBrightnessInput| #[trigger]
                    is_processed_form(processed, queue[0], indices) && after == passed_on(
                        released,
                        to,
                        seq![processed] + queue.drop_first(),
                    );
                let sent = seq![processed] + queue.drop_first();
                lemma_sockets_first(sent);
                assert(sent.drop_first() =~= queue.drop_first());
                lemma_sockets_add(released.list[to as int].light.inbox, sent);
                lemma_waiting_at(released.list, after.list, to as int, sockets(sent));
            },
            Turn::Measure(measurement) => {
                lemma_waiting_same(released.list, taken(released, indices).list);
            },
            _ => {},
        }
    }
    assert(waiting(released.list).add(sockets(queue)) =~= waiting(after.list).add(
        unanswered(turn),
    ).add(answered(turn)));
}

/// The connections whose requests are still with a fading task behind a look for
/// requests.
pub open spec fn still_with(found: Heard) -> Multiset<u64> {
    match found {
        Heard::Nothing(fade) => sockets(fade.inputs@).insert(fade.holder.socket),
        Heard::Queued(fade) => sockets(fade.inputs@).insert(fade.holder.socket),
        Heard::Interrupted { task, .. } => sockets(task.inputs@),
    }
}

/// The connections that are answered because a fade was cut short.
pub open spec fn answered_early(found: Heard) -> Multiset<u64> {
    match found {
        Heard::Interrupted { reply, .. } => Multiset::empty().insert(reply.socket),
        _ => Multiset::empty(),
    }
}

/// A monitor that is heard from is a fading one at which a request waits.
pub proof fn lemma_heard_bounds(changes: Seq<Change>, screens: Screens)
    ensures
        first_heard(changes, screens) matches Some(k) ==> 0 <= k < changes.len()
            && screens.list[changes[k].index as int].light.inbox.len() > 0,
    decreases changes.len(),
{
    if changes.len() > 0 {
        lemma_heard_bounds(changes.drop_last(), screens);
    }
}

/// Looking for requests during a fade loses none and answers none twice.
pub proof fn law_no_request_is_lost_in_a_fade(
    fade: Fade,
    found: Heard,
    screens: Screens,
    after: Screens,
)
    requires
        fade.wf(screens),
        fade.hears(found, screens, after),
    ensures
        waiting(screens.list).add(sockets(fade.inputs@).insert(fade.holder.socket)) == waiting(
            after.list,
        ).add(still_with(found)).add(answered_early(found)),
{
    lemma_heard_bounds(fade.fading@, screens);
    match first_heard(fade.fading@, screens) {
        None => {},
        Some(k) => {
            let index = fade.fading@[k].index as int;
            assert(indices_of(fade.fading@)[k] < screens.list.len());
            let inbox = screens.list[index].light.inbox;
            let between = fade.after_taking(k, screens);
            let number = inbox[0].socket_message_holder.socket;
            lemma_sockets_first(inbox);
            assert(sockets(inbox) =~= sockets(inbox.drop_first()).add(
                Multiset::empty().insert(number),
            ));
            lemma_waiting_at(
                between.list,
                screens.list,
                index,
                Multiset::empty().insert(number),
            );
            lemma_waiting_same(
                between.list,
                with_fading(between, indices_of(fade.fading@), false).list,
            );
            lemma_sockets_push(fade.inputs@, inbox[0]);
        },
    }
    assert(waiting(screens.list).add(sockets(fade.inputs@).insert(fade.holder.socket)) =~= waiting(
        after.list,
    ).add(still_with(found)).add(answered_early(found)));
}

/// A fade that is cut short leaves every brightness where it is, and no monitor of
/// it counts as fading any more.
pub proof fn law_interruption_keeps_levels(
    fade: Fade,
    found: Heard,
    screens: Screens,
    after: Screens,
)
    requires
        fade.wf(screens),
        fade.hears(found, screens, after),
    ensures
        after.list.len() == screens.list.len(),
        forall|i: int|
            0 <= i < screens.list.len() ==> (#[trigger] after.list[i]).light.level
                == screens.list[i].light.level && after.list[i].light.held
                == screens.list[i].light.held,
        found is Interrupted ==> forall|k: int|
            0 <= k < fade.fading@.len() ==> !after.list[(
            #[trigger] fade.fading@[k]).index as int].light.is_fading,
{
    lemma_heard_bounds(fade.fading@, screens);
    if let Some(k) = first_heard(fade.fading@, screens) {
        assert(indices_of(fade.fading@)[k] < screens.list.len());
    }
    if found is Interrupted {
        assert forall|k: int| 0 <= k < fade.fading@.len() implies !after.list[(
        #[trigger] fade.fading@[k]).index as int].light.is_fading by {
            assert(indices_of(fade.fading@)[k] == fade.fading@[k].index);
            assert(indices_of(fade.fading@).contains(fade.fading@[k].index));
        }
    }
}

// ---------------------------------------------------------------------------
// every request is taken up
// ---------------------------------------------------------------------------

/// Whether requests wait only at monitors whose brightness somebody holds, who is to
/// take them up.
pub open spec fn none_left_behind(screens: Screens) -> bool {
    forall|i: int|
        0 <= i < screens.list.len() && (#[trigger] screens.list[i]).light.inbox.len() > 0
            ==> screens.list[i].light.held
}

/// A task takes up the requests that wait at the monitors that it holds. None is left
/// behind at a monitor that it lets go of, and it finishes only when none waits.
pub proof fn law_no_request_is_left_behind(
    task: BrightnessTask,
    turn: Turn,
    screens: Screens,
    after: Screens,
    config: DaemonOptions,
)
    requires
        none_left_behind(screens),
        screens.list.len() <= usize::MAX,
        task.wf(screens),
        task.queue(screens).len() > 0 ==> screens.has_all(task.next_relevant(screens, config)),
        task.leads_to(turn, screens, after, config),
    ensures
        none_left_behind(after),
        turn is Finished <==> task.queue(screens).len() == 0,
        turn is Finished ==> forall|k: int|
            0 <= k < task.held@.len() ==> screens.list[(
            #[trigger] task.held@[k]) as int].light.inbox.len() == 0,
{
    let released = let_go(emptied(screens, task.held@), task.held@);
    assert(none_left_behind(released));
    if task.queue(screens).len() == 0 {
        assert forall|k: int| 0 <= k < task.held@.len() implies screens.list[(
        #[trigger] task.held@[k]) as int].light.inbox.len() == 0 by {
            lemma_waiting_somewhere(task.held@, screens, task.held@[k]);
        }
    } else {
        let indices = task.next_relevant(screens, config);
        match turn {
            Turn::HandedOver { to } => {
                lemma_blocked_exists(indices, task.held@, screens);
                lemma_blocked_is_held(indices, task.held@, screens);
                assert(released.list[to as int].light.held);
            },
            _ => {},
        }
    }
}

/// When the daemon starts, no request waits.
pub proof fn law_no_request_waits_at_the_start(
    screens: Screens,
    listed: Screens,
    states: Map<Seq<char>, BrightnessStateInternal>,
)
    requires
        screens.restored_from(listed, states),
    ensures
        none_left_behind(screens),
        forall|i: int|
            0 <= i < screens.list.len() ==> (#[trigger] screens.list[i]).light.inbox.len() == 0,
{
}

/// A monitor that is in the way of a task is held by somebody else.
proof fn lemma_blocked_is_held(indices: Seq<usize>, held: Seq<usize>, screens: Screens)
    ensures
        first_blocked(indices, held, screens) matches Some(index)
            ==> screens.list[index as int].light.held && !held.contains(index),
    decreases indices.len(),
{
    if indices.len() > 0 {
        lemma_blocked_is_held(indices.drop_last(), held, screens);
    }
}

/// Nothing else that the daemon does leaves a request behind: taking over new
/// displays, dropping monitors whose commands failed, making a monitor the active
/// one, switching a nightlight over, giving monitors new levels, noting that they
/// fade.
pub proof fn law_nothing_leaves_requests_behind(
    screens: Screens,
    displays: Seq<Display>,
    indices: Seq<usize>,
    outcomes: Seq<CommandOutcome>,
    auto_remove_displays: bool,
    new_monitor: Seq<char>,
    index: usize,
    levels: Seq<Level>,
    is_fading: bool,
)
    requires
        none_left_behind(screens),
        screens.is_sound(),
        screens.list.len() + displays.len() <= usize::MAX,
        index < screens.list.len(),
    ensures
        none_left_behind(screens.overwritten(displays)),
        none_left_behind(after_refresh(screens, indices, outcomes, auto_remove_displays)),
        none_left_behind(activated(new_monitor, screens)),
        none_left_behind(switched(screens, index)),
        none_left_behind(nightlight_let_go(screens, index)),
        none_left_behind(with_levels(screens, indices, levels)),
        none_left_behind(with_fading(screens, indices, is_fading)),
{
    assert(none_left_behind(screens.unlisted()));
    lemma_reports_leave_nothing_behind(screens.unlisted(), displays);
}

proof fn lemma_reports_leave_nothing_behind(screens: Screens, displays: Seq<Display>)
    requires
        none_left_behind(screens),
        screens.is_sound(),
        screens.list.len() + displays.len() <= usize::MAX,
    ensures
        none_left_behind(screens.after_reports(displays)),
    decreases displays.len(),
{
    if displays.len() > 0 {
        let before = screens.after_reports(displays.drop_last());
        lemma_reports_leave_nothing_behind(screens, displays.drop_last());
        lemma_reports(screens, displays.drop_last());
        lemma_position(before.list, displays.last().name);
    }
}

/// Whether one of the requests that wait at monitors is to cut a fade short.
pub open spec fn end_is_asked_for(changes: Seq<Change>, screens: Screens) -> bool {
    exists|k: int, j: int|
        0 <= k < changes.len() && 0 <= j < screens.list[changes[k].index as int].light.inbox.len()
            && (#[trigger] screens.list[(
        #[trigger] changes[k]).index as int].light.inbox[j]).brightness_input.terminate_fade
}

/// A fading task that looks for requests finds one as long as one waits at a fading
/// monitor, and leaves none behind at a monitor that nobody holds.
pub proof fn law_every_request_is_heard(fade: Fade, found: Heard, screens: Screens, after: Screens)
    requires
        fade.wf(screens),
        fade.hears(found, screens, after),
    ensures
        found is Nothing <==> forall|k: int|
            0 <= k < fade.fading@.len() ==> screens.list[(
            #[trigger] fade.fading@[k]).index as int].light.inbox.len() == 0,
        none_left_behind(screens) ==> none_left_behind(after),
{
    lemma_heard_bounds(fade.fading@, screens);
    if first_heard(fade.fading@, screens) is None {
        assert forall|k: int| 0 <= k < fade.fading@.len() implies screens.list[(
        #[trigger] fade.fading@[k]).index as int].light.inbox.len() == 0 by {
            lemma_unheard(fade.fading@, screens, k);
        }
    } else {
        let k = first_heard(fade.fading@, screens)->0;
        assert(indices_of(fade.fading@)[k] < screens.list.len());
        assert(screens.list[indices_of(fade.fading@)[k] as int].light.held);
    }
}

proof fn lemma_unheard(changes: Seq<Change>, screens: Screens, k: int)
    requires
        0 <= k < changes.len(),
        first_heard(changes, screens) is None,
    ensures
        screens.list[changes[k].index as int].light.inbox.len() == 0,
    decreases changes.len(),
{
    if k < changes.len() - 1 {
        assert(changes.drop_last()[k] == changes[k]);
        lemma_unheard(changes.drop_last(), screens, k);
    }
}

/// A request that is to cut a fade short does so, however many requests wait before
/// it: until it was found, every look for requests takes one of them, and the fade
/// does not go on with none found.
pub proof fn law_a_fade_is_cut_short_when_asked(
    fade: Fade,
    found: Heard,
    screens: Screens,
    after: Screens,
)
    requires
        fade.wf(screens),
        fade.hears(found, screens, after),
        end_is_asked_for(fade.fading@, screens),
    ensures
        match found {
            Heard::Nothing(_) => false,
            Heard::Queued(next) => {
                &&& next.fading == fade.fading
                &&& end_is_asked_for(next.fading@, after)
                &&& waiting(after.list).len() < waiting(screens.list).len()
            },
            Heard::Interrupted { reply, .. } => reply.tells(
                fade.holder.socket,
                fade.holder.queued(),
            ),
        },
{
    let (k, j) = choose|k: int, j: int|
        0 <= k < fade.fading@.len() && 0 <= j
            < screens.list[fade.fading@[k].index as int].light.inbox.len() && (
        #[trigger] screens.list[(
        #[trigger] fade.fading@[k]).index as int].light.inbox[j]).brightness_input.terminate_fade;
    law_every_request_is_heard(fade, found, screens, after);
    law_no_request_is_lost_in_a_fade(fade, found, screens, after);
    lemma_heard_bounds(fade.fading@, screens);
    if let Heard::Queued(next) = found {
        let heard = first_heard(fade.fading@, screens)->0;
        let from = fade.fading@[heard].index;
        let index = fade.fading@[k].index;
        assert(indices_of(fade.fading@)[heard] < screens.list.len());
        assert(indices_of(fade.fading@)[k] < screens.list.len());
        let inbox = screens.list[index as int].light.inbox;
        if index == from {
            assert(j > 0);
            assert(after.list[index as int].light.inbox == inbox.drop_first());
            assert(after.list[next.fading@[k].index as int].light.inbox[j - 1]
                == inbox[j]);
        } else {
            assert(after.list[next.fading@[k].index as int].light.inbox[j] == inbox[j]);
        }
        let request = screens.list[from as int].light.inbox[0];
        lemma_sockets_push(fade.inputs@, request);
        let number = request.socket_message_holder.socket;
        let own = sockets(fade.inputs@).insert(fade.holder.socket);
        assert(still_with(found) =~= own.insert(number));
        assert(waiting(screens.list).add(own).len() == waiting(screens.list).len() + own.len());
        assert(waiting(after.list).add(own.insert(number)).add(Multiset::empty()).len()
            == waiting(after.list).len() + own.len() + 1);
    }
}

} // verus!
