//! What requests are answered, and what they lead to.
use vstd::prelude::*;

use crate::daemon::config::persistent::DaemonOptions;
use crate::daemon::engine::display::{lemma_position_is, Screens};
use crate::daemon::engine::requests::{flag_chars, needs_active, property_text, serves, InputAction};
use crate::daemon::util::io::{law_answers_say_what_was_queued, Reply, SocketMessageHolder};
use crate::shared::{
    ActiveMonitorChange, BrightnessInput, ExitStatus, GetProperty, MonitorOverride, ProgramInput,
};
use crate::text::{
    ascii_lower, decimal, law_decimal_round_trip, law_joined_in_two_parts, unsigned_value,
};

verus! {

/// Whether an answer is a single message, given as a success or as a failure.
pub open spec fn says_only(reply: Reply, message: Seq<char>, status: ExitStatus) -> bool {
    &&& reply.response.exit_status == status
    &&& reply.response.messages@.len() == 1
    &&& reply.response.messages@[0]@ == message
}

// ---------------------------------------------------------------------------
// values
// ---------------------------------------------------------------------------

/// A value that is asked for is all that is answered, as a success, to the client who
/// asked; no monitor changes.
pub proof fn law_values_are_answered(
    property: GetProperty,
    action: InputAction,
    holder: SocketMessageHolder,
    screens: Screens,
    after: Screens,
    config: DaemonOptions,
    levels: Seq<Seq<char>>,
)
    requires
        serves(ProgramInput::Get(property), action, holder, screens, after, config, levels),
        holder.messages@.len() == 0,
    ensures
        after == screens,
        action matches InputAction::Respond(reply) && reply.socket == holder.socket && says_only(
            reply,
            property_text(property, screens, config, levels),
            ExitStatus::Success,
        ),
{
    let told = holder.queued().push((property_text(property, screens, config, levels), false));
    law_answers_say_what_was_queued(action->Respond_0, holder.socket, told);
    assert(!told[0].1);
}

/// What is asked of one monitor by its name, in any case, is answered with its name and
/// its brightness, or whether its nightlight is on, or whether it is fading.
pub proof fn law_values_of_one_monitor(
    adapter_name: String,
    screens: Screens,
    config: DaemonOptions,
    levels: Seq<Seq<char>>,
    i: usize,
)
    requires
        screens.is_sound(),
        i < screens.list.len(),
        screens.named.contains(i),
        ascii_lower(screens.list[i as int].name) == ascii_lower(adapter_name@),
    ensures
        ({
            let monitor = Some(MonitorOverride::Specified { adapter_name });
            let screen = screens.list[i as int];
            &&& property_text(GetProperty::Brightness(monitor), screens, config, levels)
                == screen.name + ": "@ + levels[i as int]
            &&& screen.light.nightlight ==> property_text(
                GetProperty::Mode(monitor),
                screens,
                config,
                levels,
            ) == screen.name + ": "@ + "1"@
            &&& !screen.light.nightlight ==> property_text(
                GetProperty::Mode(monitor),
                screens,
                config,
                levels,
            ) == screen.name + ": "@ + "0"@
            &&& screen.light.is_fading ==> property_text(
                GetProperty::IsFading(monitor),
                screens,
                config,
                levels,
            ) == screen.name + ": "@ + "1"@
            &&& !screen.light.is_fading ==> property_text(
                GetProperty::IsFading(monitor),
                screens,
                config,
                levels,
            ) == screen.name + ": "@ + "0"@
            &&& property_text(GetProperty::Displays(monitor), screens, config, levels)
                == screen.name
        }),
{
    lemma_position_is(screens, i as int, adapter_name@);
    assert(screens.chosen(MonitorOverride::Specified { adapter_name }) == seq![i]);
}

/// What is asked of several monitors is answered with a line for each of them, in
/// order; their names are given with a space between them.
pub proof fn law_values_of_several_monitors(
    screens: Screens,
    shown: Seq<Seq<char>>,
    first: Seq<usize>,
    second: Seq<usize>,
    i: usize,
)
    ensures
        screens.states_text(seq![i], shown) == screens.list[i as int].name + ": "@
            + shown[i as int],
        screens.names_text(seq![i]) == screens.list[i as int].name,
        screens.states_text(Seq::empty(), shown).len() == 0,
        screens.names_text(Seq::empty()).len() == 0,
        first.len() > 0 && second.len() > 0 ==> screens.states_text(first + second, shown)
            == screens.states_text(first, shown) + "\n"@ + screens.states_text(second, shown),
        first.len() > 0 && second.len() > 0 ==> screens.names_text(first + second)
            == screens.names_text(first) + " "@ + screens.names_text(second),
{
    let lines = |list: Seq<usize>|
        Seq::new(
            list.len(),
            |k: int| screens.list[list[k] as int].name + ": "@ + shown[list[k] as int],
        );
    let names = |list: Seq<usize>|
        Seq::new(list.len(), |k: int| screens.list[list[k] as int].name);
    assert(lines(first + second) =~= lines(first) + lines(second));
    assert(names(first + second) =~= names(first) + names(second));
    law_joined_in_two_parts(lines(first), lines(second), Seq::empty(), "\n"@);
    law_joined_in_two_parts(names(first), names(second), Seq::empty(), " "@);
}

/// What is asked of a choice of monitors is answered for exactly these; without a
/// choice, brightness, nightlight and fading are answered for all monitors, and names
/// are given of the connected ones.
pub proof fn law_values_of_the_chosen(
    choice: MonitorOverride,
    screens: Screens,
    config: DaemonOptions,
    levels: Seq<Seq<char>>,
)
    ensures
        property_text(GetProperty::Brightness(Some(choice)), screens, config, levels)
            == screens.states_text(screens.chosen(choice), levels),
        property_text(GetProperty::Displays(Some(choice)), screens, config, levels)
            == screens.names_text(screens.chosen(choice)),
        property_text(GetProperty::Mode(Some(choice)), screens, config, levels)
            == screens.states_text(
            screens.chosen(choice),
            Seq::new(
                screens.list.len(),
                |i: int|
                    if screens.list[i].light.nightlight {
                        "1"@
                    } else {
                        "0"@
                    },
            ),
        ),
        property_text(GetProperty::IsFading(Some(choice)), screens, config, levels)
            == screens.states_text(
            screens.chosen(choice),
            Seq::new(
                screens.list.len(),
                |i: int|
                    if screens.list[i].light.is_fading {
                        "1"@
                    } else {
                        "0"@
                    },
            ),
        ),
        property_text(GetProperty::Brightness(None), screens, config, levels) == property_text(
            GetProperty::Brightness(Some(MonitorOverride::All)),
            screens,
            config,
            levels,
        ),
        property_text(GetProperty::Mode(None), screens, config, levels) == property_text(
            GetProperty::Mode(Some(MonitorOverride::All)),
            screens,
            config,
            levels,
        ),
        property_text(GetProperty::IsFading(None), screens, config, levels) == property_text(
            GetProperty::IsFading(Some(MonitorOverride::All)),
            screens,
            config,
            levels,
        ),
        property_text(GetProperty::Displays(None), screens, config, levels) == property_text(
            GetProperty::Displays(Some(MonitorOverride::Enabled)),
            screens,
            config,
            levels,
        ),
        property_text(GetProperty::ActiveMonitor, screens, config, levels)
            == screens.list[screens.active as int].name,
{
    let modes = Seq::new(screens.list.len(), |i: int| flag_chars(screens.list[i].light.nightlight));
    assert(modes =~= Seq::new(
        screens.list.len(),
        |i: int|
            if screens.list[i].light.nightlight {
                "1"@
            } else {
                "0"@
            },
    ));
    let fading = Seq::new(screens.list.len(), |i: int| flag_chars(screens.list[i].light.is_fading));
    assert(fading =~= Seq::new(
        screens.list.len(),
        |i: int|
            if screens.list[i].light.is_fading {
                "1"@
            } else {
                "0"@
            },
    ));
}

// ---------------------------------------------------------------------------
// the active monitor
// ---------------------------------------------------------------------------

/// Whether nothing of the monitors but which of them is the active one has changed.
pub open spec fn only_active_differs(screens: Screens, after: Screens) -> bool {
    after == (Screens { active: after.active, ..screens })
}

/// A monitor that is given by its position becomes the active one exactly if it exists
/// and is connected, and the answer says so, or why not.
pub proof fn law_active_monitor_by_position(
    new_monitor: String,
    action: InputAction,
    holder: SocketMessageHolder,
    screens: Screens,
    after: Screens,
    config: DaemonOptions,
    levels: Seq<Seq<char>>,
    i: usize,
)
    requires
        new_monitor@ == decimal(i as nat),
        screens.is_sound(),
        holder.messages@.len() == 0,
        serves(
            ProgramInput::ChangeActiveMonitor(ActiveMonitorChange::SetActive(new_monitor)),
            action,
            holder,
            screens,
            after,
            config,
            levels,
        ),
    ensures
        action is Respond,
        action->Respond_0.socket == holder.socket,
        only_active_differs(screens, after),
        screens.enabled.contains(i) ==> after.active == i && says_only(
            action->Respond_0,
            "Set active monitor to "@ + screens.list[i as int].name + "!"@,
            ExitStatus::Success,
        ),
        !screens.enabled.contains(i) ==> after.active == screens.active,
        i < screens.list.len() && !screens.enabled.contains(i) ==> says_only(
            action->Respond_0,
            "Specified monitor is not enabled!"@,
            ExitStatus::Failure,
        ),
        i >= screens.list.len() ==> says_only(
            action->Respond_0,
            "Specified index does not exist!"@,
            ExitStatus::Failure,
        ),
{
    law_decimal_round_trip(i as nat, usize::MAX as int);
    let told = holder.queued().push(
        crate::daemon::engine::requests::activation_note(new_monitor@, screens),
    );
    law_answers_say_what_was_queued(action->Respond_0, holder.socket, told);
    assert(told[0] == crate::daemon::engine::requests::activation_note(new_monitor@, screens));
}

/// A monitor that is given by its name, in any case, becomes the active one exactly if
/// it was reported under this name and is connected, and the answer says so, or why not.
pub proof fn law_active_monitor_by_name(
    new_monitor: String,
    action: InputAction,
    holder: SocketMessageHolder,
    screens: Screens,
    after: Screens,
    config: DaemonOptions,
    levels: Seq<Seq<char>>,
    i: usize,
)
    requires
        unsigned_value(new_monitor@, usize::MAX as int) is None,
        screens.is_sound(),
        i < screens.list.len(),
        screens.named.contains(i),
        ascii_lower(screens.list[i as int].name) == ascii_lower(new_monitor@),
        holder.messages@.len() == 0,
        serves(
            ProgramInput::ChangeActiveMonitor(ActiveMonitorChange::SetActive(new_monitor)),
            action,
            holder,
            screens,
            after,
            config,
            levels,
        ),
    ensures
        action is Respond,
        only_active_differs(screens, after),
        screens.enabled.contains(i) ==> after.active == i && says_only(
            action->Respond_0,
            "Set active monitor to "@ + new_monitor@ + "!"@,
            ExitStatus::Success,
        ),
        !screens.enabled.contains(i) ==> after.active == screens.active && says_only(
            action->Respond_0,
            "Requested monitor is disabled!"@,
            ExitStatus::Failure,
        ),
{
    lemma_position_is(screens, i as int, new_monitor@);
    let told = holder.queued().push(
        crate::daemon::engine::requests::activation_note(new_monitor@, screens),
    );
    law_answers_say_what_was_queued(action->Respond_0, holder.socket, told);
    assert(told[0] == crate::daemon::engine::requests::activation_note(new_monitor@, screens));
}

/// A name that no reported monitor has changes nothing and is refused.
pub proof fn law_unknown_monitor_does_not_become_active(
    new_monitor: String,
    action: InputAction,
    holder: SocketMessageHolder,
    screens: Screens,
    after: Screens,
    config: DaemonOptions,
    levels: Seq<Seq<char>>,
)
    requires
        unsigned_value(new_monitor@, usize::MAX as int) is None,
        screens.is_sound(),
        forall|i: usize|
            #![trigger screens.named.contains(i)]
            i < screens.list.len() && screens.named.contains(i) ==> ascii_lower(
                screens.list[i as int].name,
            ) != ascii_lower(new_monitor@),
        holder.messages@.len() == 0,
        serves(
            ProgramInput::ChangeActiveMonitor(ActiveMonitorChange::SetActive(new_monitor)),
            action,
            holder,
            screens,
            after,
            config,
            levels,
        ),
    ensures
        after == screens,
        action is Respond,
        says_only(
            action->Respond_0,
            "Requested monitor does not exist!"@,
            ExitStatus::Failure,
        ),
{
    crate::daemon::engine::display::lemma_position(screens.list, new_monitor@);
    let told = holder.queued().push(
        crate::daemon::engine::requests::activation_note(new_monitor@, screens),
    );
    law_answers_say_what_was_queued(action->Respond_0, holder.socket, told);
    assert(told[0] == crate::daemon::engine::requests::activation_note(new_monitor@, screens));
}

// ---------------------------------------------------------------------------
// the other requests
// ---------------------------------------------------------------------------

/// A request for a change of brightness or the end of a fade becomes a task with just
/// this request; one that asks for neither is answered at once. No monitor changes yet.
pub proof fn law_brightness_requests_become_tasks(
    input: BrightnessInput,
    action: InputAction,
    holder: SocketMessageHolder,
    screens: Screens,
    after: Screens,
    config: DaemonOptions,
    levels: Seq<Seq<char>>,
)
    requires
        serves(ProgramInput::Brightness(input), action, holder, screens, after, config, levels),
        holder.messages@.len() == 0,
    ensures
        after == screens,
        input.brightness is Some || input.terminate_fade ==> action is Brightness
            && action->Brightness_0.inputs@.len() == 1
            && action->Brightness_0.inputs@[0].brightness_input == input
            && action->Brightness_0.inputs@[0].info is UnProcessed
            && action->Brightness_0.inputs@[0].socket_message_holder == holder
            && action->Brightness_0.held@.len() == 0,
        input.brightness is None && !input.terminate_fade ==> action is Respond
            && action->Respond_0.socket == holder.socket
            && action->Respond_0.response.messages@.len() == 0
            && action->Respond_0.response.exit_status == ExitStatus::Success,
{
    if input.brightness is None && !input.terminate_fade {
        law_answers_say_what_was_queued(action->Respond_0, holder.socket, holder.queued());
    }
}

/// A request to switch nightlights over becomes a task for exactly the chosen monitors,
/// or those of the configuration where none are chosen; where there are none, it is
/// refused. No monitor changes yet.
pub proof fn law_toggle_requests_become_tasks(
    monitors: Option<MonitorOverride>,
    action: InputAction,
    holder: SocketMessageHolder,
    screens: Screens,
    after: Screens,
    config: DaemonOptions,
    levels: Seq<Seq<char>>,
)
    requires
        serves(
            ProgramInput::ToggleNightlight(monitors),
            action,
            holder,
            screens,
            after,
            config,
            levels,
        ),
        holder.messages@.len() == 0,
    ensures
        after == screens,
        ({
            let indices = screens.chosen(
                if monitors is Some {
                    monitors->0
                } else {
                    config.monitor_default_behavior
                },
            );
            &&& indices.len() > 0 ==> action is ToggleNightlight
                && action->ToggleNightlight_0.indices@ == indices
                && action->ToggleNightlight_0.done == 0 && action->ToggleNightlight_0.holder
                == holder
            &&& indices.len() == 0 ==> action is Respond && says_only(
                action->Respond_0,
                "No monitors found to toggle nightlight"@,
                ExitStatus::Failure,
            )
        }),
{
    if action is Respond {
        let told = holder.queued().push(("No monitors found to toggle nightlight"@, true));
        law_answers_say_what_was_queued(action->Respond_0, holder.socket, told);
        assert(told[0].1);
    }
}

/// A request to shut down saves the brightness and the nightlight of every monitor under
/// its name, and nothing else, with the active monitor; the others are handed on to
/// those who find out the displays or read the configuration. No monitor changes.
pub proof fn law_shutdown_saves_every_light(
    action: InputAction,
    holder: SocketMessageHolder,
    screens: Screens,
    after: Screens,
    config: DaemonOptions,
    levels: Seq<Seq<char>>,
    i: int,
)
    requires
        serves(ProgramInput::Shutdown, action, holder, screens, after, config, levels),
        0 <= i < screens.list.len(),
    ensures
        after == screens,
        action is Save,
        action->state.active_monitor == screens.active,
        ({
            let states = action->state.states();
            let screen = screens.list[i];
            &&& states.contains_key(screen.name)
            &&& states[screen.name].brightness == screen.light.level
            &&& states[screen.name].nightlight == screen.light.nightlight
            &&& forall|name: Seq<char>| #[trigger]
                states.contains_key(name) ==> exists|j: int|
                    0 <= j < screens.list.len() && (#[trigger] screens.list[j]).name == name
        }),
{
}

/// A request to find out the displays anew, or to read the configuration anew, is handed
/// on as such.
pub proof fn law_requests_are_handed_on(
    action: InputAction,
    holder: SocketMessageHolder,
    screens: Screens,
    after: Screens,
    config: DaemonOptions,
    levels: Seq<Seq<char>>,
)
    ensures
        serves(ProgramInput::ConfigureDisplay, action, holder, screens, after, config, levels)
            ==> after == screens && action == InputAction::QueryDisplays(holder),
        serves(ProgramInput::ReloadConfiguration, action, holder, screens, after, config, levels)
            ==> after == screens && action == InputAction::ReadConfiguration(holder),
{
}

/// A request needs an active monitor exactly if it asks for it, or asks something of it, or
/// switches its nightlight over.
pub proof fn law_what_needs_an_active_monitor(input: ProgramInput, config: DaemonOptions)
    ensures
        needs_active(input, config) <==> match input {
            ProgramInput::Get(GetProperty::ActiveMonitor) => true,
            ProgramInput::Get(GetProperty::Brightness(monitors)) => monitors
                == Some(MonitorOverride::Active),
            ProgramInput::Get(GetProperty::Mode(monitors)) => monitors
                == Some(MonitorOverride::Active),
            ProgramInput::Get(GetProperty::IsFading(monitors)) => monitors
                == Some(MonitorOverride::Active),
            ProgramInput::Get(GetProperty::Displays(monitors)) => monitors
                == Some(MonitorOverride::Active),
            ProgramInput::ToggleNightlight(Some(monitors)) => monitors == MonitorOverride::Active,
            ProgramInput::ToggleNightlight(None) => config.monitor_default_behavior
                == MonitorOverride::Active,
            _ => false,
        },
{
}

} // verus!
