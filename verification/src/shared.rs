//! What client and daemon say to each other.
use vstd::prelude::*;

verus! {

/// Where the daemon listens.
pub const SOCKET_PATH: &'static str = "/tmp/brightness_control_socket.sock";

/// A change of brightness, in per cent.
#[derive(Clone, Copy, Debug, PartialEq, Eq, Structural)]
pub enum BrightnessChange {
    /// Move the brightness by this much.
    Adjustment(i8),
    /// Make the brightness this much.
    SetTo(u8),
}

/// Says which monitors an action is meant for.
#[derive(Debug)]
pub enum MonitorOverride {
    /// The monitor on the adapter of this name.
    Specified { adapter_name: String },
    /// The monitor that was made the active one.
    Active,
    /// Every connected monitor.
    Enabled,
    /// Every known monitor, connected or not.
    All,
}

/// The form in which a configuration file names a `MonitorOverride`.
#[derive(Debug)]
pub enum MonitorOverrideTOMLCompatible {
    Specified { adapter_name: String },
    Active,
    Enabled,
    All,
}

impl Clone for MonitorOverride {
    fn clone(&self) -> (copy: MonitorOverride)
        ensures
            copy == *self,
    {
        match self {
            MonitorOverride::Specified { adapter_name } => {
                MonitorOverride::Specified { adapter_name: adapter_name.clone() }
            },
            MonitorOverride::Active => MonitorOverride::Active,
            MonitorOverride::Enabled => MonitorOverride::Enabled,
            MonitorOverride::All => MonitorOverride::All,
        }
    }
}

impl From<MonitorOverrideTOMLCompatible> for MonitorOverride {
    fn from(value: MonitorOverrideTOMLCompatible) -> (converted: MonitorOverride) {
        match value {
            MonitorOverrideTOMLCompatible::Specified { adapter_name } => {
                MonitorOverride::Specified { adapter_name }
            },
            MonitorOverrideTOMLCompatible::Active => MonitorOverride::Active,
            MonitorOverrideTOMLCompatible::Enabled => MonitorOverride::Enabled,
            MonitorOverrideTOMLCompatible::All => MonitorOverride::All,
        }
    }
}

impl vstd::std_specs::convert::FromSpecImpl<MonitorOverrideTOMLCompatible> for MonitorOverride {
    open spec fn obeys_from_spec() -> bool {
        true
    }

    open spec fn from_spec(value: MonitorOverrideTOMLCompatible) -> MonitorOverride {
        value.meant()
    }
}

impl MonitorOverrideTOMLCompatible {
    /// The choice of monitors that is meant.
    pub open spec fn meant(self) -> MonitorOverride {
        match self {
            MonitorOverrideTOMLCompatible::Specified { adapter_name } => {
                MonitorOverride::Specified { adapter_name }
            },
            MonitorOverrideTOMLCompatible::Active => MonitorOverride::Active,
            MonitorOverrideTOMLCompatible::Enabled => MonitorOverride::Enabled,
            MonitorOverrideTOMLCompatible::All => MonitorOverride::All,
        }
    }
}

/// A request to change the brightness.
#[derive(Debug)]
pub struct BrightnessInput {
    /// The change, if there is one.
    pub brightness: Option<BrightnessChange>,
    /// Whether to fade, whatever the configuration says.
    pub override_fade: Option<bool>,
    /// The monitors that are meant, if not those of the configuration.
    pub override_monitor: Option<MonitorOverride>,
    /// Whether a running fade is to be cut short.
    pub terminate_fade: bool,
}

impl Default for BrightnessInput {
    fn default() -> (input: BrightnessInput)
        ensures
            input.brightness is None,
            input.override_fade is None,
            input.override_monitor is None,
            !input.terminate_fade,
    {
        BrightnessInput {
            brightness: None,
            override_fade: None,
            override_monitor: None,
            terminate_fade: false,
        }
    }
}

impl BrightnessInput {
    /// Whether the request asks for anything at all.
    pub open spec fn asks_for_something(self) -> bool {
        self.brightness is Some || self.terminate_fade
    }

    /// Whether the request asks for anything at all.
    pub fn is_active(&self) -> (active: bool)
        ensures
            active == self.asks_for_something(),
    {
        self.brightness.is_some() || self.terminate_fade
    }
}

/// A value that a client can ask for.
#[derive(Debug)]
pub enum GetProperty {
    /// The brightness of each monitor.
    Brightness(Option<MonitorOverride>),
    /// Whether each monitor is fading.
    IsFading(Option<MonitorOverride>),
    /// Whether the nightlight of each monitor is on.
    Mode(Option<MonitorOverride>),
    /// The names of monitors: of the connected ones, if no others are meant.
    Displays(Option<MonitorOverride>),
    /// The name of the active monitor.
    ActiveMonitor,
    /// The configuration that the daemon uses.
    Config,
}

/// A change of the active monitor.
#[derive(Debug)]
pub enum ActiveMonitorChange {
    /// Make the monitor with this name or position the active one.
    SetActive(String),
}

/// A request to the daemon.
#[derive(Debug)]
pub enum ProgramInput {
    ToggleNightlight(Option<MonitorOverride>),
    Get(GetProperty),
    ConfigureDisplay,
    ReloadConfiguration,
    Shutdown,
    Brightness(BrightnessInput),
    ChangeActiveMonitor(ActiveMonitorChange),
}

/// Whether a request was carried out.
#[derive(Clone, Copy, Debug, PartialEq, Eq, Structural)]
pub enum ExitStatus {
    Success,
    Failure,
}

/// The daemon's answer to a request.
#[derive(Debug)]
pub struct DaemonResponse {
    pub exit_status: ExitStatus,
    pub messages: Vec<String>,
}

} // verus!
