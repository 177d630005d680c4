use brightness_control::client::arguments::{
    check_brightness, check_configuration, check_get_property, check_monitor_override, check_monitor_subcommand,
    check_nightlight, get_program_input, percentage_validator, Arguments, BrightnessArguments, GetArguments,
    MonitorArguments, MonitorsArguments,
};
use brightness_control::client::flags;
use brightness_control::shared::{
    ActiveMonitorChange, BrightnessChange, BrightnessInput, GetProperty, MonitorOverride, ProgramInput,
};

fn text(value: &str) -> Option<String> {
    Some(value.to_string())
}

fn nobody() -> MonitorArguments {
    MonitorArguments { monitor: None, active: false, enabled: false, all: false }
}

fn brightness() -> BrightnessArguments {
    BrightnessArguments {
        set: None,
        increment: None,
        decrement: None,
        force_fade: false,
        force_no_fade: false,
        terminate_fade: false,
    }
}

fn values() -> GetArguments {
    GetArguments { brightness: false, mode: false, displays: false, fading: false, config: false }
}

fn arguments() -> Arguments {
    Arguments {
        monitor_override: nobody(),
        get: None,
        brightness: None,
        reload_configuration: false,
        toggle_nightlight: false,
        monitors: None,
    }
}

fn changed(input: ProgramInput) -> BrightnessInput {
    match input {
        ProgramInput::Brightness(input) => input,
        _ => panic!("no change of brightness"),
    }
}

#[test]
fn percentages() {
    assert_eq!(percentage_validator("0"), Ok(()));
    assert_eq!(percentage_validator("100"), Ok(()));
    assert_eq!(percentage_validator("-100"), Ok(()));
    assert_eq!(percentage_validator("101"), Err("Percentage out of bounds!"));
    assert_eq!(percentage_validator("-101"), Err("Percentage out of bounds!"));
    assert_eq!(percentage_validator("40000"), Err("Invalid percentage!"));
    assert_eq!(percentage_validator("ten"), Err("Invalid percentage!"));
    assert_eq!(percentage_validator(""), Err("Invalid percentage!"));
}

#[test]
fn monitors_are_chosen() {
    assert!(check_monitor_override(&nobody()).is_none());
    let mut chosen = nobody();
    chosen.all = true;
    assert!(matches!(check_monitor_override(&chosen), Some(MonitorOverride::All)));
    chosen.enabled = true;
    assert!(matches!(check_monitor_override(&chosen), Some(MonitorOverride::Enabled)));
    chosen.active = true;
    assert!(matches!(check_monitor_override(&chosen), Some(MonitorOverride::Active)));
    chosen.monitor = text("eDP-1");
    assert!(matches!(check_monitor_override(&chosen),
        Some(MonitorOverride::Specified { adapter_name }) if adapter_name == "eDP-1"));
}

#[test]
fn brightness_is_set() {
    let mut matches = brightness();
    matches.set = text("50");
    matches.increment = text("junk");
    assert!(matches.valid());
    let input = changed(check_brightness(&matches, Some(MonitorOverride::All)));
    assert_eq!(input.brightness, Some(BrightnessChange::SetTo(50)));
    assert_eq!(input.override_fade, None);
    assert!(!input.terminate_fade);
    assert!(matches!(input.override_monitor, Some(MonitorOverride::All)));
}

#[test]
fn brightness_is_adjusted() {
    let mut matches = brightness();
    matches.increment = text("10");
    matches.force_fade = true;
    matches.terminate_fade = true;
    let input = changed(check_brightness(&matches, None));
    assert_eq!(input.brightness, Some(BrightnessChange::Adjustment(10)));
    assert_eq!(input.override_fade, Some(true));
    assert!(input.terminate_fade);
    let mut matches = brightness();
    matches.decrement = text("5");
    matches.force_no_fade = true;
    let input = changed(check_brightness(&matches, None));
    assert_eq!(input.brightness, Some(BrightnessChange::Adjustment(-5)));
    assert_eq!(input.override_fade, Some(false));
    let mut matches = brightness();
    matches.decrement = text("-20");
    assert_eq!(changed(check_brightness(&matches, None)).brightness, Some(BrightnessChange::Adjustment(20)));
    let input = changed(check_brightness(&brightness(), None));
    assert_eq!(input.brightness, None);
    assert!(!input.is_active());
}

#[test]
fn numbers_that_cannot_be_read_are_not_valid() {
    let mut matches = brightness();
    assert!(matches.valid());
    matches.set = text("-5");
    assert!(!matches.valid());
    let mut matches = brightness();
    matches.increment = text("200");
    assert!(!matches.valid());
    let mut matches = brightness();
    matches.decrement = text("-128");
    assert!(!matches.valid());
    matches.increment = text("-128");
    assert!(matches.valid());
}

#[test]
fn values_are_asked_for() {
    let monitors = Some(MonitorOverride::Enabled);
    assert!(check_get_property(&values(), &monitors).is_none());
    let mut matches = values();
    matches.config = true;
    assert!(matches!(check_get_property(&matches, &monitors), Some(ProgramInput::Get(GetProperty::Config))));
    matches.fading = true;
    assert!(matches!(
        check_get_property(&matches, &monitors),
        Some(ProgramInput::Get(GetProperty::IsFading(Some(MonitorOverride::Enabled))))
    ));
    matches.displays = true;
    assert!(matches!(
        check_get_property(&matches, &monitors),
        Some(ProgramInput::Get(GetProperty::Displays(Some(MonitorOverride::Enabled))))
    ));
    assert!(matches!(
        check_get_property(&matches, &None),
        Some(ProgramInput::Get(GetProperty::Displays(None)))
    ));
    matches.mode = true;
    assert!(matches!(
        check_get_property(&matches, &monitors),
        Some(ProgramInput::Get(GetProperty::Mode(Some(MonitorOverride::Enabled))))
    ));
    matches.brightness = true;
    assert!(matches!(check_get_property(&matches, &None), Some(ProgramInput::Get(GetProperty::Brightness(None)))));
}

#[test]
fn other_subcommands() {
    let matches = MonitorsArguments { set_active: text("HDMI-1"), reconfigure_displays: true };
    assert!(matches!(check_monitor_subcommand(&matches),
        Some(ProgramInput::ChangeActiveMonitor(ActiveMonitorChange::SetActive(name))) if name == "HDMI-1"));
    let matches = MonitorsArguments { set_active: None, reconfigure_displays: true };
    assert!(matches!(check_monitor_subcommand(&matches), Some(ProgramInput::ConfigureDisplay)));
    let matches = MonitorsArguments { set_active: None, reconfigure_displays: false };
    assert!(check_monitor_subcommand(&matches).is_none());
    assert!(matches!(check_configuration(true), Some(ProgramInput::ReloadConfiguration)));
    assert!(check_configuration(false).is_none());
    assert!(matches!(
        check_nightlight(true, Some(MonitorOverride::Active)),
        Some(ProgramInput::ToggleNightlight(Some(MonitorOverride::Active)))
    ));
    assert!(check_nightlight(false, None).is_none());
}

#[test]
fn the_first_request_counts() {
    assert!(get_program_input(&arguments()).is_none());
    let mut all = arguments();
    all.monitors = Some(MonitorsArguments { set_active: None, reconfigure_displays: true });
    assert!(matches!(get_program_input(&all), Some(ProgramInput::ConfigureDisplay)));
    all.toggle_nightlight = true;
    all.monitor_override.all = true;
    assert!(matches!(
        get_program_input(&all),
        Some(ProgramInput::ToggleNightlight(Some(MonitorOverride::All)))
    ));
    all.reload_configuration = true;
    assert!(matches!(get_program_input(&all), Some(ProgramInput::ReloadConfiguration)));
    all.brightness = Some(brightness());
    assert!(matches!(get_program_input(&all), Some(ProgramInput::Brightness(_))));
    all.get = Some(values());
    assert!(matches!(get_program_input(&all), Some(ProgramInput::Brightness(_))));
    all.get = Some(GetArguments { displays: true, ..values() });
    assert!(matches!(get_program_input(&all), Some(ProgramInput::Get(GetProperty::Displays(Some(MonitorOverride::All))))));
}

fn no_flags() -> flags::Flags {
    flags::Flags {
        increment: None,
        decrement: None,
        set: None,
        get: None,
        fade: false,
        no_fade: false,
        configure_display: false,
        toggle_nightlight: false,
        reload_configuration: false,
    }
}

#[test]
fn flags_change_the_brightness() {
    assert_eq!(flags::check_brightness(&no_flags()), Ok(None));
    let increment = |value: &str| flags::Flags { increment: text(value), ..no_flags() };
    let decrement = |value: &str| flags::Flags { decrement: text(value), ..no_flags() };
    let set = |value: &str| flags::Flags { set: text(value), ..no_flags() };
    assert_eq!(flags::check_brightness(&increment("10")), Ok(Some(BrightnessChange::Adjustment(10))));
    assert_eq!(flags::check_brightness(&decrement("10")), Ok(Some(BrightnessChange::Adjustment(-10))));
    assert_eq!(flags::check_brightness(&decrement("-100")), Ok(Some(BrightnessChange::Adjustment(100))));
    assert_eq!(flags::check_brightness(&set("255")), Ok(Some(BrightnessChange::SetTo(255))));
    assert_eq!(
        flags::check_brightness(&increment("101")),
        Err("Brightness adjustment must be between -100 and 100!")
    );
    assert_eq!(flags::check_brightness(&increment("200")), Err("Invalid number passed as decrement/increment"));
    assert_eq!(flags::check_brightness(&decrement("x")), Err("Invalid number passed as decrement/increment"));
    assert_eq!(flags::check_brightness(&set("256")), Err("Invalid brightness passed to set"));
    let twice = "Only one of {increment, decrement, set} can be used at the same time!";
    assert_eq!(
        flags::check_brightness(&flags::Flags { set: text("1"), ..increment("1") }),
        Err(twice)
    );
    assert_eq!(
        flags::check_brightness(&flags::Flags { set: text("1"), ..decrement("1") }),
        Err(twice)
    );
    assert_eq!(
        flags::check_brightness(&flags::Flags { decrement: text("1"), ..increment("1") }),
        Err(twice)
    );
}

#[test]
fn flags_ask_for_values() {
    let get = |value: &str| flags::check_get_property(&flags::Flags { get: text(value), ..no_flags() });
    assert!(matches!(get("brightness"), Some(GetProperty::Brightness(None))));
    assert!(matches!(get("B"), Some(GetProperty::Brightness(None))));
    assert!(matches!(get("Mode"), Some(GetProperty::Mode(None))));
    assert!(matches!(get("d"), Some(GetProperty::Displays(None))));
    assert!(matches!(get("Config"), Some(GetProperty::Config)));
    assert!(get("fading").is_none());
    assert!(get("").is_none());
    assert!(flags::check_get_property(&no_flags()).is_none());
}

#[test]
fn flags_make_requests_in_order() {
    let given = flags::Flags {
        increment: text("5"),
        get: text("mode"),
        no_fade: true,
        configure_display: true,
        toggle_nightlight: true,
        reload_configuration: true,
        ..no_flags()
    };
    let input = flags::flagged_input(&given).unwrap();
    assert!(input.returns_feedback());
    assert_eq!(input.brightness.override_fade, Some(false));
    let requests = input.requests();
    assert_eq!(requests.len(), 5);
    assert!(matches!(requests[0], ProgramInput::ToggleNightlight(None)));
    assert!(matches!(requests[1], ProgramInput::Get(GetProperty::Mode(None))));
    assert!(matches!(requests[2], ProgramInput::ConfigureDisplay));
    assert!(matches!(requests[3], ProgramInput::ReloadConfiguration));
    assert!(matches!(requests[4], ProgramInput::Brightness(_)));
    let input = flags::flagged_input(&no_flags()).unwrap();
    assert!(!input.returns_feedback());
    assert!(input.requests().is_empty());
    let input = flags::ProgramInput::new(
        BrightnessInput { terminate_fade: true, ..BrightnessInput::default() },
        None,
        false,
        false,
        false,
        true,
    );
    let requests = input.requests();
    assert_eq!(requests.len(), 1);
    assert!(matches!(requests[0], ProgramInput::Shutdown));
    let wrong = flags::Flags { set: text("many"), ..no_flags() };
    assert_eq!(flags::flagged_input(&wrong).err(), Some("Invalid brightness passed to set"));
}
