//! The command line without subcommands: flags, several of which can be given at
//! once.
use vstd::prelude::*;

use crate::shared::{BrightnessChange, BrightnessInput, GetProperty};
use crate::text::{
    characters, lower_char, parse_signed, parse_unsigned, signed_value, unsigned_value,
};

verus! {

/// The flags as they were given.
#[derive(Debug)]
pub struct Flags {
    pub increment: Option<String>,
    pub decrement: Option<String>,
    pub set: Option<String>,
    pub get: Option<String>,
    pub fade: bool,
    pub no_fade: bool,
    pub configure_display: bool,
    pub toggle_nightlight: bool,
    pub reload_configuration: bool,
}

/// What the flags ask for, all of it at once.
#[derive(Debug)]
pub struct ProgramInput {
    pub brightness: BrightnessInput,
    pub get_property: Option<GetProperty>,
    pub configure_display: bool,
    pub toggle_nightlight: bool,
    pub reload_configuration: bool,
    pub shutdown: bool,
}

impl ProgramInput {
    pub fn new(
        brightness: BrightnessInput,
        get_property: Option<GetProperty>,
        configure_display: bool,
        toggle_nightlight: bool,
        reload_configuration: bool,
        shutdown: bool,
    ) -> (input: ProgramInput)
        ensures
            input == (ProgramInput {
                brightness,
                get_property,
                configure_display,
                toggle_nightlight,
                reload_configuration,
                shutdown,
            }),
    {
        ProgramInput {
            brightness,
            get_property,
            configure_display,
            toggle_nightlight,
            reload_configuration,
            shutdown,
        }
    }

    /// Whether the daemon sends back more than that it has done what was asked.
    pub fn returns_feedback(&self) -> (feedback: bool)
        ensures
            feedback == self.reload_configuration,
    {
        self.reload_configuration
    }

    /// The requests to the daemon, in the order in which they are carried out: the
    /// nightlight, the value, the displays, the configuration; then the shutdown,
    /// and if there is none, the brightness.
    pub open spec fn asked(self) -> Seq<crate::shared::ProgramInput> {
        let nightlight = if self.toggle_nightlight {
            seq![crate::shared::ProgramInput::ToggleNightlight(None)]
        } else {
            Seq::empty()
        };
        let value = match self.get_property {
            Some(property) => seq![crate::shared::ProgramInput::Get(property)],
            None => Seq::empty(),
        };
        let displays = if self.configure_display {
            seq![crate::shared::ProgramInput::ConfigureDisplay]
        } else {
            Seq::empty()
        };
        let configuration = if self.reload_configuration {
            seq![crate::shared::ProgramInput::ReloadConfiguration]
        } else {
            Seq::empty()
        };
        let last = if self.shutdown {
            seq![crate::shared::ProgramInput::Shutdown]
        } else if self.brightness.asks_for_something() {
            seq![crate::shared::ProgramInput::Brightness(self.brightness)]
        } else {
            Seq::empty()
        };
        nightlight + value + displays + configuration + last
    }

    /// The requests to the daemon, in the order in which they are carried out.
    pub fn requests(self) -> (list: Vec<crate::shared::ProgramInput>)
        ensures
            list@ == self.asked(),
    {
        let mut list: Vec<crate::shared::ProgramInput> = Vec::new();
        if self.toggle_nightlight {
            list.push(crate::shared::ProgramInput::ToggleNightlight(None));
        }
        match self.get_property {
            Some(property) => {
                list.push(crate::shared::ProgramInput::Get(property));
            },
            None => {},
        }
        if self.configure_display {
            list.push(crate::shared::ProgramInput::ConfigureDisplay);
        }
        if self.reload_configuration {
            list.push(crate::shared::ProgramInput::ReloadConfiguration);
        }
        if self.shutdown {
            list.push(crate::shared::ProgramInput::Shutdown);
        } else if self.brightness.is_active() {
            list.push(crate::shared::ProgramInput::Brightness(self.brightness));
        }
        assert(list@ =~= self.asked());
        list
    }
}

/// The change of brightness that the flags ask for, or what is wrong with them.
pub open spec fn flagged_change(flags: Flags) -> Result<Option<BrightnessChange>, Seq<char>> {
    let given = (if flags.increment is Some {
        1int
    } else {
        0int
    }) + (if flags.decrement is Some {
        1int
    } else {
        0int
    }) + (if flags.set is Some {
        1int
    } else {
        0int
    });
    if given > 1 {
        Err("Only one of {increment, decrement, set} can be used at the same time!"@)
    } else if given == 0 {
        Ok(None)
    } else if flags.set is Some {
        match unsigned_value(flags.set->0@, 255) {
            Some(percent) => Ok(Some(BrightnessChange::SetTo(percent as u8))),
            None => Err("Invalid brightness passed to set"@),
        }
    } else {
        let text = if flags.increment is Some {
            flags.increment->0@
        } else {
            flags.decrement->0@
        };
        match signed_value(text, -128, 127) {
            None => Err("Invalid number passed as decrement/increment"@),
            Some(shift) => if -100 <= shift <= 100 {
                Ok(
                    Some(
                        BrightnessChange::Adjustment(
                            if flags.increment is Some {
                                shift as i8
                            } else {
                                (-shift) as i8
                            },
                        ),
                    ),
                )
            } else {
                Err("Brightness adjustment must be between -100 and 100!"@)
            },
        }
    }
}

/// The change of brightness that the flags ask for, or what is wrong with them.
pub fn check_brightness(flags: &Flags) -> (change: Result<Option<BrightnessChange>, &'static str>)
    ensures
        match change {
            Ok(found) => flagged_change(*flags) == Result::<
                Option<BrightnessChange>,
                Seq<char>,
            >::Ok(found),
            Err(message) => flagged_change(*flags) == Result::<
                Option<BrightnessChange>,
                Seq<char>,
            >::Err(message@),
        },
{
    if flags.increment.is_some() || flags.decrement.is_some() {
        if flags.set.is_some() || flags.increment.is_some() && flags.decrement.is_some() {
            return Err("Only one of {increment, decrement, set} can be used at the same time!");
        }
        let parsed: Option<i32> = match &flags.increment {
            Some(num) => parse_signed(num.as_str(), -128, 127),
            None => match &flags.decrement {
                Some(num) => parse_signed(num.as_str(), -128, 127),
                None => None,
            },
        };
        match parsed {
            Some(num) => {
                if num <= 100 && num >= -100 {
                    let shift: i8 = if flags.increment.is_some() {
                        num as i8
                    } else {
                        (-num) as i8
                    };
                    Ok(Some(BrightnessChange::Adjustment(shift)))
                } else {
                    Err("Brightness adjustment must be between -100 and 100!")
                }
            },
            None => Err("Invalid number passed as decrement/increment"),
        }
    } else {
        match &flags.set {
            Some(set) => match parse_unsigned(set.as_str(), 255) {
                Some(new_brightness) => Ok(Some(BrightnessChange::SetTo(new_brightness as u8))),
                None => Err("Invalid brightness passed to set"),
            },
            None => Ok(None),
        }
    }
}

/// The value that a name stands for: its first letter decides.
pub open spec fn property_named(name: Seq<char>) -> Option<GetProperty> {
    if name.len() == 0 {
        None
    } else if lower_char(name[0]) == 'b' {
        Some(GetProperty::Brightness(None))
    } else if lower_char(name[0]) == 'm' {
        Some(GetProperty::Mode(None))
    } else if lower_char(name[0]) == 'd' {
        Some(GetProperty::Displays(None))
    } else if lower_char(name[0]) == 'c' {
        Some(GetProperty::Config)
    } else {
        None
    }
}

/// The value that the flags ask for.
pub fn check_get_property(flags: &Flags) -> (property: Option<GetProperty>)
    ensures
        property == match flags.get {
            Some(name) => property_named(name@),
            None => None,
        },
{
    match &flags.get {
        Some(get_argument) => {
            let letters: Vec<char> = characters(get_argument.as_str());
            if letters.len() == 0 {
                return None;
            }
            match letters[0] {
                'b' | 'B' => Some(GetProperty::Brightness(None)),
                'm' | 'M' => Some(GetProperty::Mode(None)),
                'd' | 'D' => Some(GetProperty::Displays(None)),
                'c' | 'C' => Some(GetProperty::Config),
                _ => None,
            }
        },
        None => None,
    }
}

/// All that the flags ask for, or what is wrong with them.
pub fn flagged_input(flags: &Flags) -> (input: Result<ProgramInput, &'static str>)
    ensures
        match (input, flagged_change(*flags)) {
            (Ok(found), Ok(change)) => found == (ProgramInput {
                brightness: BrightnessInput {
                    brightness: change,
                    override_fade: if flags.fade {
                        Some(true)
                    } else if flags.no_fade {
                        Some(false)
                    } else {
                        None
                    },
                    override_monitor: None,
                    terminate_fade: false,
                },
                get_property: match flags.get {
                    Some(name) => property_named(name@),
                    None => None,
                },
                configure_display: flags.configure_display,
                toggle_nightlight: flags.toggle_nightlight,
                reload_configuration: flags.reload_configuration,
                shutdown: false,
            }),
            (Err(message), Err(expected)) => message@ == expected,
            _ => false,
        },
{
    let brightness: Option<BrightnessChange> = match check_brightness(flags) {
        Ok(change) => change,
        Err(message) => return Err(message),
    };
    let get_property: Option<GetProperty> = check_get_property(flags);
    let override_fade: Option<bool> = if flags.fade {
        Some(true)
    } else if flags.no_fade {
        Some(false)
    } else {
        None
    };
    Ok(
        ProgramInput::new(
            BrightnessInput {
                brightness,
                override_fade,
                override_monitor: None,
                terminate_fade: false,
            },
            get_property,
            flags.configure_display,
            flags.toggle_nightlight,
            flags.reload_configuration,
            false,
        ),
    )
}

} // verus!
