//! What holds of the list of monitors whatever displays are reported.
use vstd::prelude::*;

use crate::daemon::config::runtime::CachedState;
use crate::daemon::engine::display::{
    ascending, lemma_ascending, lemma_position, lemma_position_is, no_screens, position,
    CollectiveMonitorStateInternal, Screen, Screens,
};
use crate::daemon::engine::monitor::Display;
use crate::daemon::util::atomic::Atomic;
use crate::daemon::util::tables::{positions, BrightnessStateInternal};
use crate::shared::MonitorOverride;
use crate::text::ascii_lower;

verus! {

/// Whether a display goes by a name, upper and lower case being the same.
pub open spec fn goes_by(display: Display, name: Seq<char>) -> bool {
    ascii_lower(display.name) == ascii_lower(name)
}

/// Whether one of the displays goes by a name and is connected.
pub open spec fn reported_connected(displays: Seq<Display>, name: Seq<char>) -> bool {
    exists|k: int|
        0 <= k < displays.len() && goes_by(#[trigger] displays[k], name) && displays[k].connected
}

/// Whether one of the displays goes by a name.
pub open spec fn is_reported(displays: Seq<Display>, name: Seq<char>) -> bool {
    exists|k: int| 0 <= k < displays.len() && goes_by(#[trigger] displays[k], name)
}

/// The last of the displays that goes by a name.
pub open spec fn last_report(displays: Seq<Display>, name: Seq<char>) -> Option<Display>
    decreases displays.len(),
{
    if displays.len() == 0 {
        None
    } else if goes_by(displays.last(), name) {
        Some(displays.last())
    } else {
        last_report(displays.drop_last(), name)
    }
}

/// What one report does to the list.
proof fn lemma_reported(screens: Screens, display: Display)
    requires
        screens.is_sound(),
        screens.list.len() < usize::MAX,
    ensures
        screens.reported(display).is_sound(),
        position(screens.reported(display).list, display.name) is Some,
        screens.list.len() <= screens.reported(display).list.len() <= screens.list.len() + 1,
        forall|i: int|
            0 <= i < screens.list.len() ==> (#[trigger] screens.reported(display).list[i]).name
                == screens.list[i].name && screens.reported(display).list[i].light
                == screens.list[i].light,
{
    let after = screens.reported(display);
    lemma_position(screens.list, display.name);
    match position(screens.list, display.name) {
        Some(index) => {
            assert(after.list[index as int].name == screens.list[index as int].name);
            lemma_position_is(after, index as int, display.name);
        },
        None => {
            lemma_position_is(after, screens.list.len() as int, display.name);
        },
    }
}

/// What a list of reports does to the list of monitors.
pub proof fn lemma_reports(screens: Screens, displays: Seq<Display>)
    requires
        screens.is_sound(),
        screens.list.len() + displays.len() <= usize::MAX,
    ensures
        screens.after_reports(displays).is_sound(),
        screens.list.len() <= screens.after_reports(displays).list.len() <= screens.list.len()
            + displays.len(),
        screens.after_reports(displays).active == screens.active,
        forall|i: int|
            0 <= i < screens.list.len() ==> (#[trigger] screens.after_reports(displays).list[i]).name
                == screens.list[i].name && screens.after_reports(displays).list[i].light
                == screens.list[i].light,
        forall|k: int|
            0 <= k < displays.len() ==> position(
                screens.after_reports(displays).list,
                (#[trigger] displays[k]).name,
            ) is Some,
        forall|i: int|
            0 <= i < screens.after_reports(displays).list.len() ==> (
            #[trigger] screens.after_reports(displays).list[i]).metadata == match last_report(
                displays,
                screens.after_reports(displays).list[i].name,
            ) {
                Some(display) => display.metadata,
                None => screens.list[i].metadata,
            },
        forall|i: int|
            screens.list.len() <= i < screens.after_reports(displays).list.len() ==> last_report(
                displays,
                (#[trigger] screens.after_reports(displays).list[i]).name,
            ) is Some,
        forall|i: usize|
            i < screens.after_reports(displays).list.len() ==> (
            #[trigger] screens.after_reports(displays).enabled.contains(i) <==> (
            screens.enabled.contains(i) || reported_connected(
                displays,
                screens.after_reports(displays).list[i as int].name,
            ))),
        forall|i: usize|
            i < screens.after_reports(displays).list.len() ==> (
            #[trigger] screens.after_reports(displays).named.contains(i) <==> (
            screens.named.contains(i) || is_reported(
                displays,
                screens.after_reports(displays).list[i as int].name,
            ))),
    decreases displays.len(),
{
    if displays.len() > 0 {
        let front = displays.drop_last();
        let last = displays.last();
        let before = screens.after_reports(front);
        let after = screens.after_reports(displays);
        lemma_reports(screens, front);
        lemma_reported(before, last);
        lemma_position(before.list, last.name);
        assert forall|i: int| 0 <= i < before.list.len() implies (#[trigger] after.list[i]).name
            == before.list[i].name && after.list[i].light == before.list[i].light by {
            assert(before.reported(last).list[i].name == before.list[i].name);
        }
        assert forall|k: int| 0 <= k < displays.len() implies position(
            after.list,
            (#[trigger] displays[k]).name,
        ) is Some by {
            if k < front.len() {
                let name = front[k].name;
                assert(position(before.list, name) is Some);
                lemma_position(before.list, name);
                let index = position(before.list, name)->0;
                assert(after.list[index as int].name == before.list[index as int].name);
                lemma_position_is(after, index as int, name);
            }
        }
        assert forall|i: int| 0 <= i < after.list.len() implies (#[trigger] after.list[i]).metadata
            == match last_report(displays, after.list[i].name) {
            Some(display) => display.metadata,
            None => screens.list[i].metadata,
        } by {
            if goes_by(last, after.list[i].name) {
                lemma_position_is(after, i, last.name);
                match position(before.list, last.name) {
                    Some(index) => {
                        assert(after.list[index as int].name == before.list[index as int].name);
                        lemma_position_is(after, index as int, last.name);
                    },
                    None => {
                        assert(after.list[before.list.len() as int].name == last.name);
                        lemma_position_is(after, before.list.len() as int, last.name);
                    },
                }
            } else {
                assert(i < before.list.len());
                assert(before.list[i].name == after.list[i].name);
                assert(before.list[i].metadata == after.list[i].metadata);
            }
        }
        assert forall|i: int| screens.list.len() <= i < after.list.len() implies last_report(
            displays,
            (#[trigger] after.list[i]).name,
        ) is Some by {
            if i < before.list.len() {
                assert(before.list[i].name == after.list[i].name);
            }
        }
        assert forall|i: usize| i < after.list.len() implies (
        #[trigger] after.enabled.contains(i) <==> (screens.enabled.contains(i)
            || reported_connected(displays, after.list[i as int].name))) by {
            let name = after.list[i as int].name;
            let index = match position(before.list, last.name) {
                Some(index) => index,
                None => before.list.len() as usize,
            };
            assert(ascii_lower(after.list[index as int].name) == ascii_lower(last.name)) by {
                if index < before.list.len() {
                    assert(after.list[index as int].name == before.list[index as int].name);
                }
            }
            lemma_position_is(after, index as int, last.name);
            if goes_by(last, name) {
                lemma_position_is(after, i as int, last.name);
            }
            if reported_connected(displays, name) {
                let k = choose|k: int|
                    0 <= k < displays.len() && goes_by(#[trigger] displays[k], name)
                        && displays[k].connected;
                if k < front.len() {
                    assert(goes_by(front[k], name) && front[k].connected);
                }
            }
            if reported_connected(front, name) {
                let k = choose|k: int|
                    0 <= k < front.len() && goes_by(#[trigger] front[k], name)
                        && front[k].connected;
                assert(goes_by(displays[k], name) && displays[k].connected);
            }
            if goes_by(last, name) && last.connected {
                assert(goes_by(displays[displays.len() - 1], name));
                assert(reported_connected(displays, name));
            }
            if i < before.list.len() {
                assert(before.list[i as int].name == name);
                assert(before.enabled.contains(i) <==> (screens.enabled.contains(i)
                    || reported_connected(front, name)));
            } else {
                assert(i == before.list.len());
                assert(!before.enabled.contains(i));
                assert(!screens.enabled.contains(i));
                if reported_connected(front, name) {
                    let k = choose|k: int|
                        0 <= k < front.len() && goes_by(#[trigger] front[k], name)
                            && front[k].connected;
                    assert(position(before.list, front[k].name) is Some);
                    lemma_position(before.list, front[k].name);
                    let j = position(before.list, front[k].name)->0;
                    assert(after.list[j as int].name == before.list[j as int].name);
                }
            }
        }
        assert forall|i: usize| i < after.list.len() implies (
        #[trigger] after.named.contains(i) <==> (screens.named.contains(i) || is_reported(
            displays,
            after.list[i as int].name,
        ))) by {
            let name = after.list[i as int].name;
            let index = match position(before.list, last.name) {
                Some(index) => index,
                None => before.list.len() as usize,
            };
            assert(ascii_lower(after.list[index as int].name) == ascii_lower(last.name)) by {
                if index < before.list.len() {
                    assert(after.list[index as int].name == before.list[index as int].name);
                }
            }
            lemma_position_is(after, index as int, last.name);
            if goes_by(last, name) {
                lemma_position_is(after, i as int, last.name);
                assert(goes_by(displays[displays.len() - 1], name));
                assert(is_reported(displays, name));
            }
            if is_reported(displays, name) {
                let k = choose|k: int|
                    0 <= k < displays.len() && goes_by(#[trigger] displays[k], name);
                if k < front.len() {
                    assert(goes_by(front[k], name));
                }
            }
            if is_reported(front, name) {
                let k = choose|k: int| 0 <= k < front.len() && goes_by(#[trigger] front[k], name);
                assert(goes_by(displays[k], name));
                assert(position(before.list, front[k].name) is Some);
                lemma_position(before.list, front[k].name);
                let j = position(before.list, front[k].name)->0;
                assert(after.list[j as int].name == before.list[j as int].name);
                lemma_position_is(after, j as int, name);
                lemma_position_is(after, i as int, name);
            }
            if i < before.list.len() {
                assert(before.list[i as int].name == name);
                assert(before.named.contains(i) <==> (screens.named.contains(i) || is_reported(
                    front,
                    name,
                )));
            } else {
                assert(!before.named.contains(i));
                assert(!screens.named.contains(i));
            }
        }
    }
}

/// Reporting displays anew keeps every known monitor at its position, with its
/// name, its brightness and all that goes with it.
pub proof fn law_known_monitors_stay(screens: Screens, displays: Seq<Display>, i: int)
    requires
        screens.is_sound(),
        screens.list.len() + displays.len() <= usize::MAX,
        0 <= i < screens.list.len(),
    ensures
        i < screens.overwritten(displays).list.len(),
        screens.overwritten(displays).list[i].name == screens.list[i].name,
        screens.overwritten(displays).list[i].light == screens.list[i].light,
        screens.overwritten(displays).active == screens.active,
{
    lemma_reports(screens.unlisted(), displays);
}

/// After displays were reported, the connected monitors are exactly those that were
/// reported as connected.
pub proof fn law_enabled_are_the_connected(screens: Screens, displays: Seq<Display>, i: usize)
    requires
        screens.is_sound(),
        screens.list.len() + displays.len() <= usize::MAX,
        i < screens.overwritten(displays).list.len(),
    ensures
        screens.overwritten(displays).enabled.contains(i) <==> reported_connected(
            displays,
            screens.overwritten(displays).list[i as int].name,
        ),
{
    let cleared = screens.unlisted();
    lemma_reports(cleared, displays);
    assert(cleared.after_reports(displays).enabled.contains(i) <==> (cleared.enabled.contains(i)
        || reported_connected(displays, cleared.after_reports(displays).list[i as int].name)));
}

/// After displays were reported, the names that are found are exactly those of the
/// reported displays, in any mixture of upper and lower case.
pub proof fn law_found_are_the_reported(screens: Screens, displays: Seq<Display>, name: Seq<char>)
    requires
        screens.is_sound(),
        screens.list.len() + displays.len() <= usize::MAX,
    ensures
        screens.overwritten(displays).found(name) is Some <==> is_reported(displays, name),
{
    let cleared = screens.unlisted();
    let after = screens.overwritten(displays);
    lemma_reports(cleared, displays);
    lemma_position(after.list, name);
    if is_reported(displays, name) {
        let k = choose|k: int| 0 <= k < displays.len() && goes_by(#[trigger] displays[k], name);
        lemma_position_ignores_case(after.list, displays[k].name, name);
        assert(position(after.list, displays[k].name) is Some);
    }
    match position(after.list, name) {
        Some(i) => {
            let own = after.list[i as int].name;
            assert(cleared.after_reports(displays).named.contains(i) <==> (cleared.named.contains(i)
                || is_reported(displays, own)));
            if is_reported(displays, own) {
                let k = choose|k: int|
                    0 <= k < displays.len() && goes_by(#[trigger] displays[k], own);
                assert(goes_by(displays[k], name));
            }
            if is_reported(displays, name) {
                let k = choose|k: int|
                    0 <= k < displays.len() && goes_by(#[trigger] displays[k], name);
                assert(goes_by(displays[k], own));
            }
        },
        None => {},
    }
}

/// Reporting the same displays a second time changes nothing.
pub proof fn law_reporting_again_changes_nothing(screens: Screens, displays: Seq<Display>)
    requires
        screens.is_sound(),
        screens.list.len() + 2 * displays.len() <= usize::MAX,
    ensures
        screens.overwritten(displays).overwritten(displays) == screens.overwritten(displays),
{
    let cleared = screens.unlisted();
    let once = screens.overwritten(displays);
    let again = once.unlisted();
    lemma_reports(cleared, displays);
    lemma_reports(again, displays);
    let twice = again.after_reports(displays);
    lemma_nothing_new(again, displays);
    assert forall|i: int| 0 <= i < twice.list.len() implies #[trigger] twice.list[i]
        == once.list[i] by {
        assert(again.list[i] == once.list[i]);
        assert(twice.list[i].name == again.list[i].name);
        assert(cleared.after_reports(displays).list[i].metadata == once.list[i].metadata);
    }
    assert(twice.list =~= once.list);
    assert forall|i: usize| twice.enabled.contains(i) <==> once.enabled.contains(i) by {
        if i < once.list.len() {
            assert(twice.list[i as int] == once.list[i as int]);
            assert(again.after_reports(displays).enabled.contains(i) <==> (again.enabled.contains(i)
                || reported_connected(displays, again.after_reports(displays).list[i as int].name)));
            assert(cleared.after_reports(displays).enabled.contains(i) <==> (
            cleared.enabled.contains(i) || reported_connected(
                displays,
                cleared.after_reports(displays).list[i as int].name,
            )));
        }
    }
    assert(twice.enabled =~= once.enabled);
    assert forall|i: usize| twice.named.contains(i) <==> once.named.contains(i) by {
        if i < once.list.len() {
            assert(twice.list[i as int] == once.list[i as int]);
            assert(again.after_reports(displays).named.contains(i) <==> (again.named.contains(i)
                || is_reported(displays, again.after_reports(displays).list[i as int].name)));
            assert(cleared.after_reports(displays).named.contains(i) <==> (cleared.named.contains(i)
                || is_reported(displays, cleared.after_reports(displays).list[i as int].name)));
        }
    }
    assert(twice.named =~= once.named);
}

/// Displays that are all known add no monitor.
proof fn lemma_nothing_new(screens: Screens, displays: Seq<Display>)
    requires
        screens.is_sound(),
        screens.list.len() + displays.len() <= usize::MAX,
        forall|k: int|
            0 <= k < displays.len() ==> position(screens.list, (#[trigger] displays[k]).name)
                is Some,
    ensures
        screens.after_reports(displays).list.len() == screens.list.len(),
    decreases displays.len(),
{
    if displays.len() > 0 {
        let front = displays.drop_last();
        assert forall|k: int| 0 <= k < front.len() implies position(
            screens.list,
            (#[trigger] front[k]).name,
        ) is Some by {
            assert(front[k] == displays[k]);
        }
        lemma_nothing_new(screens, front);
        lemma_reports(screens, front);
        let before = screens.after_reports(front);
        let name = displays.last().name;
        assert(position(screens.list, displays[displays.len() - 1].name) is Some);
        lemma_position(screens.list, name);
        let index = position(screens.list, name)->0;
        assert(before.list[index as int].name == screens.list[index as int].name);
        lemma_position_is(before, index as int, name);
    }
}

/// The position of a name does not depend on upper and lower case.
proof fn lemma_position_ignores_case(list: Seq<Screen>, name: Seq<char>, other: Seq<char>)
    requires
        ascii_lower(name) == ascii_lower(other),
    ensures
        position(list, name) == position(list, other),
    decreases list.len(),
{
    if list.len() > 0 {
        lemma_position_ignores_case(list.drop_last(), name, other);
    }
}

/// A monitor is found under its name in any mixture of upper and lower case.
pub proof fn law_names_ignore_case(screens: Screens, name: Seq<char>, other: Seq<char>)
    requires
        ascii_lower(name) == ascii_lower(other),
    ensures
        screens.found(name) == screens.found(other),
{
    lemma_position_ignores_case(screens.list, name, other);
}

/// Choosing all monitors chooses every known one, connected or not; choosing the
/// enabled ones chooses exactly the connected ones. Neither chooses one twice.
pub proof fn law_all_and_enabled(screens: Screens, i: usize)
    requires
        screens.is_sound(),
    ensures
        screens.chosen(MonitorOverride::All).contains(i) <==> i < screens.list.len(),
        screens.chosen(MonitorOverride::Enabled).contains(i) <==> screens.enabled.contains(i),
        screens.chosen(MonitorOverride::All).no_duplicates(),
        screens.chosen(MonitorOverride::Enabled).no_duplicates(),
{
    let all = screens.chosen(MonitorOverride::All);
    if i < screens.list.len() {
        assert(all[i as int] == i);
    }
    lemma_ascending(screens.enabled, screens.list.len());
    let enabled = ascending(screens.enabled, screens.list.len());
    if enabled.contains(i) {
        let k = enabled.index_of(i);
        assert(screens.enabled.contains(enabled[k]));
    }
}

/// What was kept of monitors whose brightness is between 0 and 100 is taken over at
/// the beginning of the next run.
pub proof fn law_saved_state_is_sound(screens: Screens, cached: CachedState)
    requires
        screens.kept_in(cached.states()),
        forall|i: int|
            0 <= i < screens.list.len() ==> (#[trigger] screens.list[i]).light.level.in_range(),
    ensures
        cached.is_sound(),
{
    assert forall|name: Seq<char>| #[trigger] cached.states().contains_key(name) implies cached.states()[name].brightness.in_range() by {
        let i = choose|i: int|
            0 <= i < screens.list.len() && (#[trigger] screens.list[i]).name == name;
        assert(screens.list[i].light.level.in_range());
    }
}

/// After one display was reported that was not known, it is the last of the monitors, at
/// full brightness and with its nightlight off; one that was known keeps its place and
/// its light. Either way it has the reported place and size, and is connected if that was
/// reported.
pub proof fn law_report_of_one_display(screens: Screens, display: Display)
    requires
        screens.is_sound(),
        screens.list.len() < usize::MAX,
    ensures
        position(screens.list, display.name) is None ==> ({
            let after = screens.reported(display);
            let last = screens.list.len() as int;
            &&& after.list.len() == last + 1
            &&& after.list[last].name == display.name
            &&& after.list[last].metadata == display.metadata
            &&& after.list[last].light.level.is_exactly(100)
            &&& !after.list[last].light.nightlight
            &&& !after.list[last].light.held
            &&& !after.list[last].light.is_fading
            &&& after.list[last].light.inbox.len() == 0
            &&& after.enabled.contains(last as usize) <==> display.connected
            &&& after.named.contains(last as usize)
        }),
        position(screens.list, display.name) matches Some(index) ==> ({
            let after = screens.reported(display);
            &&& after.list.len() == screens.list.len()
            &&& after.list[index as int].name == screens.list[index as int].name
            &&& after.list[index as int].light == screens.list[index as int].light
            &&& after.list[index as int].metadata == display.metadata
            &&& display.connected ==> after.enabled.contains(index)
            &&& after.named.contains(index)
        }),
        forall|i: usize|
            i < screens.list.len() && Some(i) != position(screens.list, display.name) ==> (
            #[trigger] screens.reported(display).list[i as int]) == screens.list[i as int] && (
            screens.reported(display).enabled.contains(i) <==> screens.enabled.contains(i)) && (
            screens.reported(display).named.contains(i) <==> screens.named.contains(i)),
{
    lemma_position(screens.list, display.name);
    crate::level::law_percent_level_exact(100);
    assert(!screens.enabled.contains(screens.list.len() as usize));
}

/// Every choice stands for its monitors in ascending order.
pub proof fn law_choices_are_in_order(screens: Screens, monitors: MonitorOverride, j: int, k: int)
    requires
        screens.is_sound(),
        0 <= j < k < screens.chosen(monitors).len(),
    ensures
        screens.chosen(monitors)[j] < screens.chosen(monitors)[k],
{
    lemma_ascending(screens.enabled, screens.list.len());
}

/// A monitor of which nothing is remembered starts at full brightness with its nightlight
/// off; whatever is remembered, nobody holds a monitor at the start, and none fades.
pub proof fn law_start_of_a_monitor(
    screens: Screens,
    listed: Screens,
    states: Map<Seq<char>, BrightnessStateInternal>,
    i: int,
)
    requires
        screens.restored_from(listed, states),
        0 <= i < screens.list.len(),
    ensures
        screens.list[i].name == listed.list[i].name,
        screens.list[i].metadata == listed.list[i].metadata,
        screens.enabled == listed.enabled,
        screens.active == listed.active,
        !screens.list[i].light.held,
        !screens.list[i].light.nightlight_held,
        !screens.list[i].light.is_fading,
        screens.list[i].light.inbox.len() == 0,
        (forall|key: Seq<char>| #[trigger]
            states.contains_key(key) ==> ascii_lower(key) != ascii_lower(screens.list[i].name))
            ==> screens.list[i].light.level.is_exactly(100) && !screens.list[i].light.nightlight,
{
    crate::level::law_percent_level_exact(100);
    assert(crate::daemon::engine::display::restored(
        states,
        screens.list[i].name,
        screens.list[i].light,
    ));
}

/// The monitors as plain values are what is kept of them: name, place and size,
/// brightness, nightlight, who holds them, what waits and whether they fade; the connected
/// ones, the active one, and those that their names lead to.
pub proof fn law_plain_values_are_what_is_kept(states: CollectiveMonitorStateInternal, i: usize)
    requires
        i < states.available_adapter_list@.len(),
    ensures
        ({
            let kept = states.available_adapter_list@[i as int];
            let screen = states@.list[i as int];
            &&& states@.list.len() == states.available_adapter_list@.len()
            &&& screen.name == kept.monitor_data.adapter_name@
            &&& screen.metadata == kept.monitor_data.monitor_metadata
            &&& screen.light.level == kept.brightness_state.brightness.internal.value()
            &&& screen.light.held == kept.brightness_state.brightness.locked
            &&& screen.light.inbox == kept.brightness_state.brightness.write_mutex@
            &&& screen.light.nightlight == kept.brightness_state.nightlight.internal.value()
            &&& screen.light.nightlight_held == kept.brightness_state.nightlight.locked
            &&& screen.light.is_fading == kept.brightness_state.is_fading
            &&& states@.enabled.contains(i) <==> states.enabled_monitors@.contains(i)
            &&& states@.active == states.active_monitor
            &&& states@.named.contains(i) <==> positions(states.monitor_names).contains_key(
                ascii_lower(kept.monitor_data.adapter_name@),
            ) && positions(states.monitor_names)[ascii_lower(kept.monitor_data.adapter_name@)] == i
        }),
{
}

/// Before any display was reported there is no monitor.
pub proof fn law_no_monitors_at_first(active: usize, i: usize)
    ensures
        no_screens(active).list.len() == 0,
        no_screens(active).active == active,
        !no_screens(active).enabled.contains(i),
        !no_screens(active).named.contains(i),
{
}

/// A single level that no display can have spoils all that was saved, and nothing else
/// does.
pub proof fn law_one_bad_level_spoils_all(cached: CachedState, name: Seq<char>)
    ensures
        cached.states().contains_key(name) && !cached.states()[name].brightness.in_range()
            ==> !cached.is_sound(),
        !cached.is_sound() ==> exists|other: Seq<char>| #[trigger]
            cached.states().contains_key(other) && !cached.states()[other].brightness.in_range(),
{
}

/// Displays are reported one after the other: those that come first, and then the others.
pub proof fn law_reports_follow_each_other(
    screens: Screens,
    first: Seq<Display>,
    second: Seq<Display>,
    display: Display,
)
    ensures
        screens.after_reports(Seq::empty()) == screens,
        screens.after_reports(seq![display]) == screens.reported(display),
        screens.after_reports(first + second) == screens.after_reports(first).after_reports(second),
    decreases second.len(),
{
    assert(seq![display].drop_last() =~= Seq::<Display>::empty());
    assert(screens.after_reports(seq![display].drop_last()) == screens);
    if second.len() == 0 {
        assert(first + second =~= first);
    } else {
        assert((first + second).drop_last() =~= first + second.drop_last());
        law_reports_follow_each_other(screens, first, second.drop_last(), display);
    }
}

} // verus!
