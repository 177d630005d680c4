//! Requests out of the arguments on the command line.
use vstd::prelude::*;

use crate::shared::{
    ActiveMonitorChange, BrightnessChange, BrightnessInput, GetProperty, MonitorOverride,
    ProgramInput,
};
use crate::text::{
    law_signed_decimal_round_trip, parse_signed, parse_unsigned, signed_decimal, signed_value,
    unsigned_value,
};

verus! {

/// The options that choose monitors.
#[derive(Debug)]
pub struct MonitorArguments {
    pub monitor: Option<String>,
    pub active: bool,
    pub enabled: bool,
    pub all: bool,
}

/// The options of the subcommand that changes the brightness.
#[derive(Debug)]
pub struct BrightnessArguments {
    pub set: Option<String>,
    pub increment: Option<String>,
    pub decrement: Option<String>,
    pub force_fade: bool,
    pub force_no_fade: bool,
    pub terminate_fade: bool,
}

/// The options of the subcommand that asks for values.
#[derive(Debug)]
pub struct GetArguments {
    pub brightness: bool,
    pub mode: bool,
    pub displays: bool,
    pub fading: bool,
    pub config: bool,
}

/// The options of the subcommand for monitors.
#[derive(Debug)]
pub struct MonitorsArguments {
    pub set_active: Option<String>,
    pub reconfigure_displays: bool,
}

/// All arguments; a subcommand that was not given is missing.
#[derive(Debug)]
pub struct Arguments {
    pub monitor_override: MonitorArguments,
    pub get: Option<GetArguments>,
    pub brightness: Option<BrightnessArguments>,
    /// Whether the subcommand for the configuration asks to reload it.
    pub reload_configuration: bool,
    /// Whether the subcommand for the nightlight asks to toggle it.
    pub toggle_nightlight: bool,
    pub monitors: Option<MonitorsArguments>,
}

// ---------------------------------------------------------------------------
// percentages
// ---------------------------------------------------------------------------

/// Checks that an argument is a percentage.
pub fn percentage_validator(arg: &str) -> (valid: Result<(), &'static str>)
    ensures
        match signed_value(arg@, -32768, 32767) {
            Some(percent) => if -100 <= percent <= 100 {
                valid is Ok
            } else {
                valid is Err && valid->Err_0@ == "Percentage out of bounds!"@
            },
            None => valid is Err && valid->Err_0@ == "Invalid percentage!"@,
        },
        forall|n: int|
            arg@ == #[trigger] signed_decimal(n) ==> (valid is Ok <==> -100 <= n <= 100),
{
    proof {
        assert forall|n: int| arg@ == #[trigger] signed_decimal(n) implies signed_value(
            arg@,
            -32768,
            32767,
        ) == (if -32768 <= n <= 32767 {
            Some(n)
        } else {
            None
        }) by {
            law_signed_decimal_round_trip(n, -32768, 32767);
        }
    }
    match parse_signed(arg, -32768, 32767) {
        Some(num) => {
            if num <= 100 && num >= -100 {
                Ok(())
            } else {
                Err("Percentage out of bounds!")
            }
        },
        None => Err("Invalid percentage!"),
    }
}

// ---------------------------------------------------------------------------
// monitors
// ---------------------------------------------------------------------------

impl MonitorArguments {
    /// The monitors that the options choose, if they choose any. A name counts
    /// before the active monitor, that before the connected ones, and those before
    /// all.
    pub open spec fn chosen(self) -> Option<MonitorOverride> {
        match self.monitor {
            Some(adapter_name) => Some(MonitorOverride::Specified { adapter_name }),
            None => if self.active {
                Some(MonitorOverride::Active)
            } else if self.enabled {
                Some(MonitorOverride::Enabled)
            } else if self.all {
                Some(MonitorOverride::All)
            } else {
                None
            },
        }
    }
}

/// The monitors that the options choose.
pub fn check_monitor_override(matches: &MonitorArguments) -> (chosen: Option<MonitorOverride>)
    ensures
        chosen == matches.chosen(),
{
    match &matches.monitor {
        Some(monitor) => Some(MonitorOverride::Specified { adapter_name: monitor.clone() }),
        None => {
            if matches.active {
                Some(MonitorOverride::Active)
            } else if matches.enabled {
                Some(MonitorOverride::Enabled)
            } else if matches.all {
                Some(MonitorOverride::All)
            } else {
                None
            }
        },
    }
}

// ---------------------------------------------------------------------------
// brightness
// ---------------------------------------------------------------------------

impl BrightnessArguments {
    /// Whether the number that counts can be read.
    pub open spec fn is_valid(self) -> bool {
        match (self.set, self.increment, self.decrement) {
            (Some(percent), _, _) => unsigned_value(percent@, 255) is Some,
            (None, Some(shift), _) => signed_value(shift@, -128, 127) is Some,
            (None, None, Some(shift)) => signed_value(shift@, -127, 127) is Some,
            (None, None, None) => true,
        }
    }

    /// The change that is asked for: a value to set counts before an increment, and
    /// that before a decrement.
    pub open spec fn change(self) -> Option<BrightnessChange> {
        match (self.set, self.increment, self.decrement) {
            (Some(percent), _, _) => Some(
                BrightnessChange::SetTo(unsigned_value(percent@, 255)->0 as u8),
            ),
            (None, Some(shift), _) => Some(
                BrightnessChange::Adjustment(signed_value(shift@, -128, 127)->0 as i8),
            ),
            (None, None, Some(shift)) => Some(
                BrightnessChange::Adjustment((-signed_value(shift@, -127, 127)->0) as i8),
            ),
            (None, None, None) => None,
        }
    }

    /// Whether to fade, if the options say.
    pub open spec fn fade(self) -> Option<bool> {
        if self.force_fade {
            Some(true)
        } else if self.force_no_fade {
            Some(false)
        } else {
            None
        }
    }

    /// Whether the number that counts can be read.
    pub fn valid(&self) -> (valid: bool)
        ensures
            valid == self.is_valid(),
    {
        match &self.set {
            Some(percent) => parse_unsigned(percent.as_str(), 255).is_some(),
            None => match &self.increment {
                Some(shift) => parse_signed(shift.as_str(), -128, 127).is_some(),
                None => match &self.decrement {
                    Some(shift) => parse_signed(shift.as_str(), -127, 127).is_some(),
                    None => true,
                },
            },
        }
    }
}

/// The change that is asked for.
fn check_change(matches: &BrightnessArguments) -> (change: Option<BrightnessChange>)
    requires
        matches.is_valid(),
    ensures
        change == matches.change(),
{
    match &matches.set {
        Some(new_brightness) => match parse_unsigned(new_brightness.as_str(), 255) {
            Some(percent) => Some(BrightnessChange::SetTo(percent as u8)),
            None => None,
        },
        None => match &matches.increment {
            Some(brightness_shift) => match parse_signed(brightness_shift.as_str(), -128, 127) {
                Some(num) => Some(BrightnessChange::Adjustment(num as i8)),
                None => None,
            },
            None => match &matches.decrement {
                Some(brightness_shift) => match parse_signed(
                    brightness_shift.as_str(),
                    -127,
                    127,
                ) {
                    Some(num) => Some(BrightnessChange::Adjustment((-num) as i8)),
                    None => None,
                },
                None => None,
            },
        },
    }
}

/// The request that the options of the subcommand that changes the brightness make.
pub fn check_brightness(
    matches: &BrightnessArguments,
    override_monitor: Option<MonitorOverride>,
) -> (input: ProgramInput)
    requires
        matches.is_valid(),
    ensures
        input == ProgramInput::Brightness(
            (BrightnessInput {
                brightness: matches.change(),
                override_fade: matches.fade(),
                override_monitor,
                terminate_fade: matches.terminate_fade,
            }),
        ),
{
    let brightness: Option<BrightnessChange> = check_change(matches);
    let override_fade: Option<bool> = if matches.force_fade {
        Some(true)
    } else if matches.force_no_fade {
        Some(false)
    } else {
        None
    };
    ProgramInput::Brightness(
        BrightnessInput {
            brightness,
            override_fade,
            override_monitor,
            terminate_fade: matches.terminate_fade,
        },
    )
}

// ---------------------------------------------------------------------------
// values
// ---------------------------------------------------------------------------

impl GetArguments {
    /// The value that is asked for, if there is one.
    pub open spec fn property(self, monitors: Option<MonitorOverride>) -> Option<GetProperty> {
        if self.brightness {
            Some(GetProperty::Brightness(monitors))
        } else if self.mode {
            Some(GetProperty::Mode(monitors))
        } else if self.displays {
            Some(GetProperty::Displays(monitors))
        } else if self.fading {
            Some(GetProperty::IsFading(monitors))
        } else if self.config {
            Some(GetProperty::Config)
        } else {
            None
        }
    }
}

/// The request that the options of the subcommand that asks for values make.
pub fn check_get_property(
    matches: &GetArguments,
    monitor_override: &Option<MonitorOverride>,
) -> (input: Option<ProgramInput>)
    ensures
        input == match matches.property(*monitor_override) {
            Some(property) => Some(ProgramInput::Get(property)),
            None => None,
        },
{
    let monitors: Option<MonitorOverride> = match monitor_override {
        Some(chosen) => Some(chosen.clone()),
        None => None,
    };
    if matches.brightness {
        Some(ProgramInput::Get(GetProperty::Brightness(monitors)))
    } else if matches.mode {
        Some(ProgramInput::Get(GetProperty::Mode(monitors)))
    } else if matches.displays {
        Some(ProgramInput::Get(GetProperty::Displays(monitors)))
    } else if matches.fading {
        Some(ProgramInput::Get(GetProperty::IsFading(monitors)))
    } else if matches.config {
        Some(ProgramInput::Get(GetProperty::Config))
    } else {
        None
    }
}

// ---------------------------------------------------------------------------
// the other subcommands
// ---------------------------------------------------------------------------

/// The request that the options of the subcommand for monitors make: a new active
/// monitor counts before the displays being found out anew.
pub fn check_monitor_subcommand(matches: &MonitorsArguments) -> (input: Option<ProgramInput>)
    ensures
        input == match matches.set_active {
            Some(new_monitor) => Some(
                ProgramInput::ChangeActiveMonitor(ActiveMonitorChange::SetActive(new_monitor)),
            ),
            None => if matches.reconfigure_displays {
                Some(ProgramInput::ConfigureDisplay)
            } else {
                None
            },
        },
{
    match &matches.set_active {
        Some(new_monitor) => Some(
            ProgramInput::ChangeActiveMonitor(ActiveMonitorChange::SetActive(new_monitor.clone())),
        ),
        None => {
            if matches.reconfigure_displays {
                Some(ProgramInput::ConfigureDisplay)
            } else {
                None
            }
        },
    }
}

/// The request that the option to reload the configuration makes.
pub fn check_configuration(reload_configuration: bool) -> (input: Option<ProgramInput>)
    ensures
        input == (if reload_configuration {
            Some(ProgramInput::ReloadConfiguration)
        } else {
            None
        }),
{
    if reload_configuration {
        Some(ProgramInput::ReloadConfiguration)
    } else {
        None
    }
}

/// The request that the option to toggle the nightlight makes.
pub fn check_nightlight(
    toggle_nightlight: bool,
    monitor_override: Option<MonitorOverride>,
) -> (input: Option<ProgramInput>)
    ensures
        input == (if toggle_nightlight {
            Some(ProgramInput::ToggleNightlight(monitor_override))
        } else {
            None
        }),
{
    if toggle_nightlight {
        Some(ProgramInput::ToggleNightlight(monitor_override))
    } else {
        None
    }
}

// ---------------------------------------------------------------------------
// all arguments
// ---------------------------------------------------------------------------

impl Arguments {
    /// Whether the numbers in the arguments can be read.
    pub open spec fn is_valid(self) -> bool {
        self.brightness matches Some(matches) ==> matches.is_valid()
    }

    /// The request that the arguments make: the first of value, brightness,
    /// configuration, nightlight and monitors that is asked for.
    pub open spec fn request(self) -> Option<ProgramInput> {
        let monitors = self.monitor_override.chosen();
        if self.get matches Some(matches) && matches.property(monitors) is Some {
            Some(ProgramInput::Get(self.get->0.property(monitors)->0))
        } else if self.brightness is Some {
            Some(
                ProgramInput::Brightness(
                    BrightnessInput {
                        brightness: self.brightness->0.change(),
                        override_fade: self.brightness->0.fade(),
                        override_monitor: monitors,
                        terminate_fade: self.brightness->0.terminate_fade,
                    },
                ),
            )
        } else if self.reload_configuration {
            Some(ProgramInput::ReloadConfiguration)
        } else if self.toggle_nightlight {
            Some(ProgramInput::ToggleNightlight(monitors))
        } else {
            match self.monitors {
                Some(matches) => match matches.set_active {
                    Some(new_monitor) => Some(
                        ProgramInput::ChangeActiveMonitor(
                            ActiveMonitorChange::SetActive(new_monitor),
                        ),
                    ),
                    None => if matches.reconfigure_displays {
                        Some(ProgramInput::ConfigureDisplay)
                    } else {
                        None
                    },
                },
                None => None,
            }
        }
    }
}

/// The request that the arguments make, if they make one.
pub fn get_program_input(arguments: &Arguments) -> (input: Option<ProgramInput>)
    requires
        arguments.is_valid(),
    ensures
        input == arguments.request(),
{
    let monitor_override: Option<MonitorOverride> = check_monitor_override(
        &arguments.monitor_override,
    );
    if let Some(matches) = &arguments.get {
        let input: Option<ProgramInput> = check_get_property(matches, &monitor_override);
        if input.is_some() {
            return input;
        }
    }
    if let Some(matches) = &arguments.brightness {
        return Some(check_brightness(matches, monitor_override));
    }
    let input: Option<ProgramInput> = check_configuration(arguments.reload_configuration);
    if input.is_some() {
        return input;
    }
    let input: Option<ProgramInput> = check_nightlight(
        arguments.toggle_nightlight,
        monitor_override,
    );
    if input.is_some() {
        return input;
    }
    match &arguments.monitors {
        Some(matches) => check_monitor_subcommand(matches),
        None => None,
    }
}

/// Arguments that name a percentage that passed the check can be read.
pub proof fn law_checked_percentages_are_valid(arguments: BrightnessArguments, percent: Seq<char>)
    requires
        signed_value(percent, -32768, 32767) matches Some(value) && -100 <= value <= 100,
        arguments.set is None,
        arguments.increment matches Some(shift) ==> shift@ == percent,
        arguments.increment is None ==> (arguments.decrement matches Some(shift) ==> shift@
            == percent),
    ensures
        arguments.is_valid(),
{
}

} // verus!
