//! The configuration of the daemon.
use vstd::prelude::*;

use crate::shared::{MonitorOverride, MonitorOverrideTOMLCompatible};
use crate::text::{decimal, decimal_text};

verus! {

/// The configuration file that a fresh installation gets. Its first line holds
/// the version of the program that wrote it.
pub const CONFIG_TEMPLATE: &'static str = "# v2.1.2
# Use redshift instead of xrandr for the nightlight
use_redshift = false

# Stop using a display as soon as a command for it fails
auto_remove_displays = true

[fade_options]
# Changes of more than this many per cent fade
threshold = 20
# Milliseconds from the beginning to the end of a fade
total_duration = 250
# Milliseconds between two steps of a fade
step_duration = 25

[nightlight_options]
# Gamma for xrandr while the nightlight is on
xrandr_gamma = \"1.0:0.7:0.45\"
# Colour temperature for redshift while the nightlight is on
redshift_temperature = 1400

[monitor_default_behavior]
# Which monitors a command is meant for if it does not say so:
# Active, Enabled, All, or Specified with an adapter_name
type = \"Enabled\"
";

/// How the nightlight looks.
#[derive(Debug)]
pub struct NightlightOptions {
    pub xrandr_gamma: String,
    pub redshift_temperature: u32,
}

/// When and how to fade.
#[derive(Clone, Copy, Debug, PartialEq, Eq, Structural)]
pub struct FadeOptions {
    /// Changes of more than this many per cent fade.
    pub threshold: u8,
    /// Milliseconds from the beginning to the end of a fade.
    pub total_duration: u32,
    /// Milliseconds between two steps of a fade.
    pub step_duration: u32,
}

impl FadeOptions {
    /// Whether the duration can be cut into steps.
    pub open spec fn has_steps(self) -> bool {
        0 < self.step_duration <= self.total_duration
    }

    /// The number of steps of a fade.
    pub open spec fn num_steps(self) -> int {
        self.total_duration as int / self.step_duration as int
    }
}

/// The options that the user can set.
#[derive(Debug)]
pub struct DaemonOptions {
    pub use_redshift: bool,
    pub auto_remove_displays: bool,
    pub fade_options: FadeOptions,
    pub nightlight_options: NightlightOptions,
    pub monitor_default_behavior: MonitorOverride,
}

/// What a configuration file says about each option: nothing, a value, or
/// something that is no value for it, with the reason.
#[derive(Debug)]
pub struct ConfigurationSections {
    pub use_redshift: Option<Result<bool, String>>,
    pub auto_remove_displays: Option<Result<bool, String>>,
    pub fade_options: Option<Result<FadeOptions, String>>,
    pub nightlight_options: Option<Result<NightlightOptions, String>>,
    pub monitor_default_behavior: Option<Result<MonitorOverrideTOMLCompatible, String>>,
}

/// The reason why a section holds no value.
pub open spec fn fault<T>(section: Option<Result<T, String>>) -> Option<Seq<char>> {
    match section {
        Some(Err(reason)) => Some(reason@),
        _ => None,
    }
}

/// The value of a section.
pub open spec fn value_of<T>(section: Option<Result<T, String>>, otherwise: T) -> T {
    match section {
        Some(Ok(value)) => value,
        _ => otherwise,
    }
}

impl ConfigurationSections {
    /// The reason that the first section without a value gives, in the order in
    /// which the sections are looked at.
    pub open spec fn first_fault(self) -> Option<Seq<char>> {
        if fault(self.use_redshift) is Some {
            fault(self.use_redshift)
        } else if fault(self.auto_remove_displays) is Some {
            fault(self.auto_remove_displays)
        } else if fault(self.fade_options) is Some {
            fault(self.fade_options)
        } else if fault(self.nightlight_options) is Some {
            fault(self.nightlight_options)
        } else {
            fault(self.monitor_default_behavior)
        }
    }

    /// Whether the options are the values of the sections, and the defaults where
    /// there is no section.
    pub open spec fn describes(self, options: DaemonOptions) -> bool {
        &&& options.use_redshift == value_of(self.use_redshift, false)
        &&& options.auto_remove_displays == value_of(self.auto_remove_displays, true)
        &&& options.fade_options == value_of(self.fade_options, default_fade())
        &&& match self.nightlight_options {
            Some(Ok(value)) => options.nightlight_options == value,
            _ => is_default_nightlight(options.nightlight_options),
        }
        &&& match self.monitor_default_behavior {
            Some(Ok(value)) => options.monitor_default_behavior == value.meant(),
            _ => options.monitor_default_behavior == MonitorOverride::Enabled,
        }
    }
}

/// How a fade goes if the user does not say.
pub open spec fn default_fade() -> FadeOptions {
    FadeOptions { threshold: 20, total_duration: 250, step_duration: 25 }
}

/// Whether the nightlight looks as it does if the user does not say.
pub open spec fn is_default_nightlight(options: NightlightOptions) -> bool {
    options.xrandr_gamma@ == "1.0:0.7:0.45"@ && options.redshift_temperature == 1400
}

/// The Debug text of a truth value.
pub open spec fn bool_chars(value: bool) -> Seq<char> {
    if value {
        "true"@
    } else {
        "false"@
    }
}

fn bool_text(value: bool) -> (text: &'static str)
    ensures
        text@ == bool_chars(value),
{
    if value {
        "true"
    } else {
        "false"
    }
}

/// The Debug form of a text: in double quotes, with escapes.
pub uninterp spec fn quoted_chars(text: Seq<char>) -> Seq<char>;

/// Writes a text with std's `Debug` for `str`, which puts it in double quotes and
/// escapes what cannot stand there as it is. Which characters are escaped, and
/// how, is not stated.
#[verifier::external_body]
fn quoted(text: &str) -> (quoted_text: String)
    ensures
        quoted_text@ == quoted_chars(text@),
{
    format!("{:?}", text)
}

/// The Debug text of a choice of monitors, given how a name is quoted.
pub open spec fn monitors_chars(monitors: MonitorOverride) -> Seq<char> {
    match monitors {
        MonitorOverride::Specified { adapter_name } => "Specified { adapter_name: "@ + quoted_chars(
            adapter_name@,
        ) + " }"@,
        MonitorOverride::Active => "Active"@,
        MonitorOverride::Enabled => "Enabled"@,
        MonitorOverride::All => "All"@,
    }
}

impl DaemonOptions {
    /// The text that shows all options with their names.
    pub open spec fn shown(self) -> Seq<char> {
        "DaemonOptions { use_redshift: "@ + bool_chars(self.use_redshift)
            + ", auto_remove_displays: "@ + bool_chars(self.auto_remove_displays)
            + ", fade_options: FadeOptions { threshold: "@ + decimal(
            self.fade_options.threshold as nat,
        ) + ", total_duration: "@ + decimal(self.fade_options.total_duration as nat)
            + ", step_duration: "@ + decimal(self.fade_options.step_duration as nat)
            + " }, nightlight_options: NightlightOptions { xrandr_gamma: "@ + quoted_chars(
            self.nightlight_options.xrandr_gamma@,
        ) + ", redshift_temperature: "@ + decimal(
            self.nightlight_options.redshift_temperature as nat,
        ) + " }, monitor_default_behavior: "@ + monitors_chars(self.monitor_default_behavior)
            + " }"@
    }

    /// Writes all options with their names.
    pub fn show(&self) -> (text: String)
        ensures
            text@ == self.shown(),
    {
        let mut text: String = "DaemonOptions { use_redshift: ".to_owned();
        text.append(bool_text(self.use_redshift));
        text.append(", auto_remove_displays: ");
        text.append(bool_text(self.auto_remove_displays));
        text.append(", fade_options: FadeOptions { threshold: ");
        text.append(decimal_text(self.fade_options.threshold as u64).as_str());
        text.append(", total_duration: ");
        text.append(decimal_text(self.fade_options.total_duration as u64).as_str());
        text.append(", step_duration: ");
        text.append(decimal_text(self.fade_options.step_duration as u64).as_str());
        text.append(" }, nightlight_options: NightlightOptions { xrandr_gamma: ");
        text.append(quoted(self.nightlight_options.xrandr_gamma.as_str()).as_str());
        text.append(", redshift_temperature: ");
        text.append(decimal_text(self.nightlight_options.redshift_temperature as u64).as_str());
        text.append(" }, monitor_default_behavior: ");
        text.append(show_monitors(&self.monitor_default_behavior).as_str());
        text.append(" }");
        text
    }

    /// The options that `CONFIG_TEMPLATE` describes.
    pub fn default() -> (options: DaemonOptions)
        ensures
            options.is_default(),
    {
        DaemonOptions {
            use_redshift: false,
            auto_remove_displays: true,
            fade_options: FadeOptions { threshold: 20, total_duration: 250, step_duration: 25 },
            nightlight_options: NightlightOptions {
                xrandr_gamma: "1.0:0.7:0.45".to_owned(),
                redshift_temperature: 1400,
            },
            monitor_default_behavior: MonitorOverride::Enabled,
        }
    }

    /// Whether these are the options that `CONFIG_TEMPLATE` describes.
    pub open spec fn is_default(self) -> bool {
        &&& !self.use_redshift
        &&& self.auto_remove_displays
        &&& self.fade_options == default_fade()
        &&& is_default_nightlight(self.nightlight_options)
        &&& self.monitor_default_behavior == MonitorOverride::Enabled
    }
}

fn show_monitors(monitors: &MonitorOverride) -> (text: String)
    ensures
        text@ == monitors_chars(*monitors),
{
    match monitors {
        MonitorOverride::Specified { adapter_name } => {
            let mut text: String = "Specified { adapter_name: ".to_owned();
            text.append(quoted(adapter_name.as_str()).as_str());
            text.append(" }");
            text
        },
        MonitorOverride::Active => "Active".to_owned(),
        MonitorOverride::Enabled => "Enabled".to_owned(),
        MonitorOverride::All => "All".to_owned(),
    }
}

/// Puts what a configuration file says over the default options.
pub fn overwrite_values(sections: ConfigurationSections) -> (configured: Result<
    DaemonOptions,
    String,
>)
    ensures
        match configured {
            Ok(options) => sections.first_fault() is None && sections.describes(options),
            Err(reason) => sections.first_fault() == Some(reason@),
        },
{
    let ConfigurationSections {
        use_redshift,
        auto_remove_displays,
        fade_options,
        nightlight_options,
        monitor_default_behavior,
    } = sections;
    let mut config: DaemonOptions = DaemonOptions::default();
    match use_redshift {
        Some(Ok(value)) => {
            config.use_redshift = value;
        },
        Some(Err(reason)) => {
            return Err(reason);
        },
        None => {},
    }
    match auto_remove_displays {
        Some(Ok(value)) => {
            config.auto_remove_displays = value;
        },
        Some(Err(reason)) => {
            return Err(reason);
        },
        None => {},
    }
    match fade_options {
        Some(Ok(value)) => {
            config.fade_options = value;
        },
        Some(Err(reason)) => {
            return Err(reason);
        },
        None => {},
    }
    match nightlight_options {
        Some(Ok(value)) => {
            config.nightlight_options = value;
        },
        Some(Err(reason)) => {
            return Err(reason);
        },
        None => {},
    }
    match monitor_default_behavior {
        Some(Ok(value)) => {
            config.monitor_default_behavior = MonitorOverride::from(value);
        },
        Some(Err(reason)) => {
            return Err(reason);
        },
        None => {},
    }
    Ok(config)
}

/// Every option is what the configuration file says of it, and where it says nothing of
/// it: no redshift, automatic removal, fades of changes of more than 20 per cent over 250
/// milliseconds in steps of 25, the gamma `1.0:0.7:0.45`, a temperature of 1400, and the
/// connected monitors.
pub proof fn law_options_are_as_written(sections: ConfigurationSections, options: DaemonOptions)
    requires
        sections.describes(options),
        sections.first_fault() is None,
    ensures
        sections.use_redshift is Some ==> sections.use_redshift->0 == Result::<bool, String>::Ok(
            options.use_redshift,
        ),
        sections.use_redshift is None ==> !options.use_redshift,
        sections.auto_remove_displays is Some ==> sections.auto_remove_displays->0 == Result::<
            bool,
            String,
        >::Ok(options.auto_remove_displays),
        sections.auto_remove_displays is None ==> options.auto_remove_displays,
        sections.fade_options is Some ==> sections.fade_options->0 == Result::<
            FadeOptions,
            String,
        >::Ok(options.fade_options),
        sections.fade_options is None ==> options.fade_options.threshold == 20
            && options.fade_options.total_duration == 250 && options.fade_options.step_duration
            == 25,
        sections.nightlight_options is Some ==> sections.nightlight_options->0 == Result::<
            NightlightOptions,
            String,
        >::Ok(options.nightlight_options),
        sections.nightlight_options is None ==> options.nightlight_options.xrandr_gamma@
            == "1.0:0.7:0.45"@ && options.nightlight_options.redshift_temperature == 1400,
        sections.monitor_default_behavior is None ==> options.monitor_default_behavior
            == MonitorOverride::Enabled,
        sections.monitor_default_behavior matches Some(Ok(value)) ==> match value {
            MonitorOverrideTOMLCompatible::Specified { adapter_name } => {
                options.monitor_default_behavior == MonitorOverride::Specified { adapter_name }
            },
            MonitorOverrideTOMLCompatible::Active => options.monitor_default_behavior
                == MonitorOverride::Active,
            MonitorOverrideTOMLCompatible::Enabled => options.monitor_default_behavior
                == MonitorOverride::Enabled,
            MonitorOverrideTOMLCompatible::All => options.monitor_default_behavior
                == MonitorOverride::All,
        },
{
}

/// The options of the template are those that hold where a file says nothing.
pub proof fn law_defaults_are_these(options: DaemonOptions)
    ensures
        options.is_default() <==> !options.use_redshift && options.auto_remove_displays
            && options.fade_options.threshold == 20 && options.fade_options.total_duration == 250
            && options.fade_options.step_duration == 25 && options.nightlight_options.xrandr_gamma@
            == "1.0:0.7:0.45"@ && options.nightlight_options.redshift_temperature == 1400
            && options.monitor_default_behavior == MonitorOverride::Enabled,
{
}

/// There is a fault exactly if one of the sections holds no value, and where only one
/// does, its reason is given.
pub proof fn law_every_fault_is_found(sections: ConfigurationSections)
    ensures
        sections.first_fault() is None <==> !(sections.use_redshift matches Some(Err(_))) && !(
        sections.auto_remove_displays matches Some(Err(_))) && !(
        sections.fade_options matches Some(Err(_))) && !(
        sections.nightlight_options matches Some(Err(_))) && !(
        sections.monitor_default_behavior matches Some(Err(_))),
        sections.use_redshift matches Some(Err(reason)) ==> sections.first_fault() == Some(reason@),
        !(sections.use_redshift matches Some(Err(_))) ==> (
        sections.auto_remove_displays matches Some(Err(reason)) ==> sections.first_fault() == Some(
            reason@,
        )),
        !(sections.use_redshift matches Some(Err(_))) && !(
        sections.auto_remove_displays matches Some(Err(_))) ==> (
        sections.fade_options matches Some(Err(reason)) ==> sections.first_fault() == Some(
            reason@,
        )),
        !(sections.use_redshift matches Some(Err(_))) && !(
        sections.auto_remove_displays matches Some(Err(_))) && !(
        sections.fade_options matches Some(Err(_))) ==> (
        sections.nightlight_options matches Some(Err(reason)) ==> sections.first_fault() == Some(
            reason@,
        )),
        !(sections.use_redshift matches Some(Err(_))) && !(
        sections.auto_remove_displays matches Some(Err(_))) && !(
        sections.fade_options matches Some(Err(_))) && !(
        sections.nightlight_options matches Some(Err(_))) ==> (
        sections.monitor_default_behavior matches Some(Err(reason)) ==> sections.first_fault()
            == Some(reason@)),
{
}

/// A duration can be cut into steps exactly if the steps have a length that fits into it.
pub proof fn law_durations_that_have_steps(options: FadeOptions)
    ensures
        options.has_steps() <==> options.step_duration > 0 && options.step_duration
            <= options.total_duration,
{
}

/// The text that shows the options gives each of them behind its name.
pub proof fn law_every_option_is_shown(options: DaemonOptions)
    ensures
        options.shown() == "DaemonOptions { use_redshift: "@ + (if options.use_redshift {
            "true"@
        } else {
            "false"@
        }) + ", auto_remove_displays: "@ + (if options.auto_remove_displays {
            "true"@
        } else {
            "false"@
        }) + ", fade_options: FadeOptions { threshold: "@ + decimal(
            options.fade_options.threshold as nat,
        ) + ", total_duration: "@ + decimal(options.fade_options.total_duration as nat)
            + ", step_duration: "@ + decimal(options.fade_options.step_duration as nat)
            + " }, nightlight_options: NightlightOptions { xrandr_gamma: "@ + quoted_chars(
            options.nightlight_options.xrandr_gamma@,
        ) + ", redshift_temperature: "@ + decimal(
            options.nightlight_options.redshift_temperature as nat,
        ) + " }, monitor_default_behavior: "@ + (match options.monitor_default_behavior {
            MonitorOverride::Specified { adapter_name } => "Specified { adapter_name: "@
                + quoted_chars(adapter_name@) + " }"@,
            MonitorOverride::Active => "Active"@,
            MonitorOverride::Enabled => "Enabled"@,
            MonitorOverride::All => "All"@,
        }) + " }"@,
{
}

} // verus!
