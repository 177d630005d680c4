//! What the arguments on the command line come to.
use vstd::prelude::*;

use crate::client::arguments::{
    Arguments, BrightnessArguments, GetArguments, MonitorArguments,
};
use crate::client::flags::{flagged_change, property_named, Flags, ProgramInput};
use crate::shared::{
    ActiveMonitorChange, BrightnessChange, GetProperty, MonitorOverride,
};
use crate::text::{decimal, law_decimal_round_trip, law_signed_decimal_round_trip, signed_decimal};

verus! {

// ---------------------------------------------------------------------------
// with subcommands
// ---------------------------------------------------------------------------

/// The number that is given as the brightness to set is the brightness that is asked
/// for, whatever else is given.
pub proof fn law_set_is_asked_for(arguments: BrightnessArguments, percent: u8)
    requires
        arguments.set matches Some(text) && text@ == decimal(percent as nat),
    ensures
        arguments.is_valid(),
        arguments.change() == Some(BrightnessChange::SetTo(percent)),
{
    law_decimal_round_trip(percent as nat, 255);
}

/// The number that is given as the increment is the adjustment that is asked for, with
/// its sign, unless a brightness to set is given.
pub proof fn law_increment_is_asked_for(arguments: BrightnessArguments, shift: i8)
    requires
        arguments.set is None,
        arguments.increment matches Some(text) && text@ == signed_decimal(shift as int),
    ensures
        arguments.is_valid(),
        arguments.change() == Some(BrightnessChange::Adjustment(shift)),
{
    law_signed_decimal_round_trip(shift as int, -128, 127);
}

/// The number that is given as the decrement is the adjustment that is asked for, with
/// the opposite sign, if nothing else is given.
pub proof fn law_decrement_is_asked_for(arguments: BrightnessArguments, shift: i8)
    requires
        shift > -128,
        arguments.set is None,
        arguments.increment is None,
        arguments.decrement matches Some(text) && text@ == signed_decimal(-shift),
    ensures
        arguments.is_valid(),
        arguments.change() == Some(BrightnessChange::Adjustment(shift)),
{
    law_signed_decimal_round_trip(-shift, -127, 127);
}

/// An increment and a decrement of the same number undo each other.
pub proof fn law_decrement_is_the_opposite(
    up: BrightnessArguments,
    down: BrightnessArguments,
    shift: i8,
)
    requires
        shift > -128,
        up.set is None,
        up.increment matches Some(text) && text@ == signed_decimal(shift as int),
        down.set is None,
        down.increment is None,
        down.decrement matches Some(text) && text@ == signed_decimal(shift as int),
    ensures
        up.change() matches Some(BrightnessChange::Adjustment(more)) && down.change() matches Some(
            BrightnessChange::Adjustment(less),
        ) && more + less == 0,
{
    law_increment_is_asked_for(up, shift);
    law_signed_decimal_round_trip(shift as int, -127, 127);
}

/// Without a number no change is asked for, and without a change no number was given.
pub proof fn law_no_number_no_change(arguments: BrightnessArguments)
    ensures
        arguments.change() is None <==> arguments.set is None && arguments.increment is None
            && arguments.decrement is None,
        arguments.change() is None ==> arguments.is_valid(),
{
}

/// Whether to fade is as it was asked for; if it was not said, it is left open.
pub proof fn law_fade_is_as_asked(arguments: BrightnessArguments)
    ensures
        arguments.force_fade ==> arguments.fade() == Some(true),
        !arguments.force_fade && arguments.force_no_fade ==> arguments.fade() == Some(false),
        !arguments.force_fade && !arguments.force_no_fade ==> arguments.fade() is None,
{
}

/// A name chooses the monitor of that name; without one the active monitor, the
/// connected ones or all of them are chosen as was asked for; and nothing is chosen
/// that was not asked for.
pub proof fn law_monitors_are_as_asked(arguments: MonitorArguments)
    ensures
        arguments.monitor matches Some(name) ==> arguments.chosen() == Some(
            MonitorOverride::Specified { adapter_name: name },
        ),
        arguments.monitor is None && arguments.active ==> arguments.chosen() == Some(
            MonitorOverride::Active,
        ),
        arguments.monitor is None && !arguments.active && arguments.enabled ==> arguments.chosen()
            == Some(MonitorOverride::Enabled),
        arguments.monitor is None && !arguments.active && !arguments.enabled && arguments.all
            ==> arguments.chosen() == Some(MonitorOverride::All),
        arguments.chosen() is None <==> arguments.monitor is None && !arguments.active
            && !arguments.enabled && !arguments.all,
{
}

/// A value that is asked for alone is the value that is asked of the daemon, for the
/// monitors that were chosen.
pub proof fn law_value_is_as_asked(arguments: GetArguments, monitors: Option<MonitorOverride>)
    ensures
        arguments.brightness ==> arguments.property(monitors) == Some(
            GetProperty::Brightness(monitors),
        ),
        arguments.mode && !arguments.brightness ==> arguments.property(monitors) == Some(
            GetProperty::Mode(monitors),
        ),
        arguments.displays && !arguments.brightness && !arguments.mode ==> arguments.property(
            monitors,
        ) == Some(GetProperty::Displays(monitors)),
        arguments.fading && !arguments.brightness && !arguments.mode && !arguments.displays
            ==> arguments.property(monitors) == Some(GetProperty::IsFading(monitors)),
        arguments.config && !arguments.brightness && !arguments.mode && !arguments.displays
            && !arguments.fading ==> arguments.property(monitors) == Some(GetProperty::Config),
        arguments.property(monitors) is None <==> !arguments.brightness && !arguments.mode
            && !arguments.displays && !arguments.fading && !arguments.config,
{
}

/// A request to set the brightness reaches the daemon with the number, whether to
/// fade, the monitors and whether to end a fade just as they were given.
pub proof fn law_set_reaches_the_daemon(
    arguments: Arguments,
    brightness: BrightnessArguments,
    percent: u8,
)
    requires
        arguments.get is None,
        arguments.brightness == Some(brightness),
        brightness.set matches Some(text) && text@ == decimal(percent as nat),
    ensures
        arguments.is_valid(),
        arguments.request() matches Some(crate::shared::ProgramInput::Brightness(input))
            && input.brightness == Some(BrightnessChange::SetTo(percent)) && (
        input.override_fade == Some(true) <==> brightness.force_fade) && (input.override_fade
            == Some(false) <==> brightness.force_no_fade && !brightness.force_fade)
            && input.override_monitor == arguments.monitor_override.chosen()
            && input.terminate_fade == brightness.terminate_fade,
{
    law_set_is_asked_for(brightness, percent);
}

/// A request to adjust the brightness reaches the daemon with the number, whether to
/// fade, the monitors and whether to end a fade just as they were given.
pub proof fn law_adjustment_reaches_the_daemon(
    arguments: Arguments,
    brightness: BrightnessArguments,
    shift: i8,
)
    requires
        shift > -128,
        arguments.get is None,
        arguments.brightness == Some(brightness),
        brightness.set is None,
        match brightness.increment {
            Some(text) => text@ == signed_decimal(shift as int),
            None => brightness.decrement matches Some(text) && text@ == signed_decimal(-shift),
        },
    ensures
        arguments.is_valid(),
        arguments.request() matches Some(crate::shared::ProgramInput::Brightness(input))
            && input.brightness == Some(BrightnessChange::Adjustment(shift)) && (
        input.override_fade == Some(true) <==> brightness.force_fade) && (input.override_fade
            == Some(false) <==> brightness.force_no_fade && !brightness.force_fade)
            && input.override_monitor == arguments.monitor_override.chosen()
            && input.terminate_fade == brightness.terminate_fade,
{
    match brightness.increment {
        Some(_) => law_increment_is_asked_for(brightness, shift),
        None => law_decrement_is_asked_for(brightness, shift),
    }
}

/// Each subcommand that is given alone makes its request, and none makes none.
pub proof fn law_each_subcommand_makes_its_request(arguments: Arguments)
    requires
        arguments.brightness is None,
    ensures
        arguments.get is Some && arguments.get->0.property(arguments.monitor_override.chosen())
            is Some ==> arguments.request() == Some(
            crate::shared::ProgramInput::Get(
                arguments.get->0.property(arguments.monitor_override.chosen())->0,
            ),
        ),
        arguments.get is None && arguments.reload_configuration ==> arguments.request() == Some(
            crate::shared::ProgramInput::ReloadConfiguration,
        ),
        arguments.get is None && !arguments.reload_configuration && arguments.toggle_nightlight
            ==> arguments.request() == Some(
            crate::shared::ProgramInput::ToggleNightlight(arguments.monitor_override.chosen()),
        ),
        arguments.get is None && !arguments.reload_configuration && !arguments.toggle_nightlight
            && arguments.monitors is Some && arguments.monitors->0.set_active is Some
            ==> arguments.request() == Some(
            crate::shared::ProgramInput::ChangeActiveMonitor(
                ActiveMonitorChange::SetActive(arguments.monitors->0.set_active->0),
            ),
        ),
        arguments.get is None && !arguments.reload_configuration && !arguments.toggle_nightlight
            && arguments.monitors is Some && arguments.monitors->0.set_active is None
            && arguments.monitors->0.reconfigure_displays ==> arguments.request() == Some(
            crate::shared::ProgramInput::ConfigureDisplay,
        ),
        arguments.get is None && !arguments.reload_configuration && !arguments.toggle_nightlight
            && arguments.monitors is None ==> arguments.request() is None,
{
}

// ---------------------------------------------------------------------------
// without subcommands
// ---------------------------------------------------------------------------

/// The number that is given to the flag for a brightness to set is the brightness that
/// is asked for.
pub proof fn law_flagged_set_is_asked_for(flags: Flags, percent: u8)
    requires
        flags.increment is None,
        flags.decrement is None,
        flags.set matches Some(text) && text@ == decimal(percent as nat),
    ensures
        flagged_change(flags) matches Ok(change) && change == Some(
            BrightnessChange::SetTo(percent),
        ),
{
    law_decimal_round_trip(percent as nat, 255);
}

/// The number that is given to the flag for an increment is the adjustment that is
/// asked for, and that of a decrement has the opposite sign; none of more than a
/// hundred is accepted.
pub proof fn law_flagged_adjustment_is_asked_for(flags: Flags, shift: i8)
    requires
        shift > -128,
        flags.set is None,
        match flags.increment {
            Some(text) => text@ == signed_decimal(shift as int) && flags.decrement is None,
            None => flags.decrement matches Some(text) && text@ == signed_decimal(-shift),
        },
    ensures
        -100 <= shift <= 100 ==> (flagged_change(flags) matches Ok(change) && change == Some(
            BrightnessChange::Adjustment(shift),
        )),
        shift < -100 || shift > 100 ==> (flagged_change(flags) matches Err(message) && message
            == "Brightness adjustment must be between -100 and 100!"@),
{
    law_signed_decimal_round_trip(shift as int, -128, 127);
    law_signed_decimal_round_trip(-shift, -128, 127);
}

/// Without a number no change is asked for, and more than one of the three is refused.
pub proof fn law_one_flag_at_a_time(flags: Flags)
    ensures
        flags.set is None && flags.increment is None && flags.decrement is None <==> (
        flagged_change(flags) matches Ok(change) && change is None),
        (flags.set is Some && flags.increment is Some) || (flags.set is Some && flags.decrement
            is Some) || (flags.increment is Some && flags.decrement is Some) ==> (flagged_change(
            flags,
        ) matches Err(message) && message
            == "Only one of {increment, decrement, set} can be used at the same time!"@),
{
}

/// The first letter of the name of a value decides which one is asked for, in either
/// case, and no other letter counts.
pub proof fn law_first_letter_decides(name: Seq<char>)
    requires
        name.len() > 0,
    ensures
        name[0] == 'b' || name[0] == 'B' ==> property_named(name) == Some(
            GetProperty::Brightness(None),
        ),
        name[0] == 'm' || name[0] == 'M' ==> property_named(name) == Some(GetProperty::Mode(None)),
        name[0] == 'd' || name[0] == 'D' ==> property_named(name) == Some(
            GetProperty::Displays(None),
        ),
        name[0] == 'c' || name[0] == 'C' ==> property_named(name) == Some(GetProperty::Config),
        property_named(name) is Some ==> name[0] == 'b' || name[0] == 'B' || name[0] == 'm'
            || name[0] == 'M' || name[0] == 'd' || name[0] == 'D' || name[0] == 'c' || name[0]
            == 'C',
{
}

/// Every flag makes its request once, and nothing else makes a request: the nightlight
/// comes first, then the value, the displays and the configuration; a shutdown comes
/// last and stands in the way of a change of brightness.
pub proof fn law_flags_make_their_requests(input: ProgramInput, k: int)
    requires
        0 <= k < input.asked().len(),
    ensures
        ({
            let before = |flag: bool| -> int { if flag { 1 } else { 0 } };
            let nightlight = before(input.toggle_nightlight);
            let value = nightlight + before(input.get_property is Some);
            let displays = value + before(input.configure_display);
            let configuration = displays + before(input.reload_configuration);
            let last = configuration + before(
                input.shutdown || input.brightness.brightness is Some
                    || input.brightness.terminate_fade,
            );
            &&& input.asked().len() == last
            &&& k < nightlight ==> input.asked()[k]
                == crate::shared::ProgramInput::ToggleNightlight(None)
            &&& nightlight <= k < value ==> input.asked()[k] == crate::shared::ProgramInput::Get(
                input.get_property->0,
            )
            &&& value <= k < displays ==> input.asked()[k]
                == crate::shared::ProgramInput::ConfigureDisplay
            &&& displays <= k < configuration ==> input.asked()[k]
                == crate::shared::ProgramInput::ReloadConfiguration
            &&& configuration <= k && input.shutdown ==> input.asked()[k]
                == crate::shared::ProgramInput::Shutdown
            &&& configuration <= k && !input.shutdown ==> input.asked()[k]
                == crate::shared::ProgramInput::Brightness(input.brightness)
        }),
{
}

/// Flags that ask for nothing make no request.
pub proof fn law_no_flags_no_request(input: ProgramInput)
    ensures
        input.asked().len() == 0 <==> !input.toggle_nightlight && input.get_property is None
            && !input.configure_display && !input.reload_configuration && !input.shutdown
            && input.brightness.brightness is None && !input.brightness.terminate_fade,
{
}

} // verus!
