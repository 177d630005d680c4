use brightness_control::daemon::config::persistent::{
    overwrite_values, ConfigurationSections, DaemonOptions, FadeOptions, NightlightOptions, CONFIG_TEMPLATE,
};
use brightness_control::daemon::config::runtime::{BrightnessInputInfo, CachedState};
use brightness_control::daemon::engine::commands::{
    create_xrandr_commands, finish_refresh, start_result, Argument, CommandLine, CommandOutcome,
};
use brightness_control::daemon::engine::monitor::get_available_displays;
use brightness_control::daemon::engine::nightlight::{NightlightTask, NightlightTurn};
use brightness_control::daemon::engine::requests::{
    finish_save, Daemon, InputAction, ProcessInputExitCode,
};
use brightness_control::daemon::engine::single::{
    create_xrandr_commands_with_brightness, get_current_connected_displays, SingleLight,
};
use brightness_control::daemon::fs::{initial_configuration, is_template_current};
use brightness_control::daemon::util::io::{Reply, SocketMessageHolder};
use brightness_control::level::Level;
use brightness_control::shared::{
    ActiveMonitorChange, BrightnessChange, BrightnessInput, ExitStatus, GetProperty, MonitorOverride,
    MonitorOverrideTOMLCompatible, ProgramInput,
};

const OUTPUT: &str = "A-1 connected 1x1+0+0\nB-2 connected 1x1+0+0\nC-3 disconnected (normal)\n";

fn level(value: f64) -> Level {
    Level { bits: value.to_bits() }
}

fn daemon() -> Daemon {
    Daemon::new(DaemonOptions::default(), CachedState::default(), get_available_displays(&OUTPUT.as_bytes().to_vec()))
}

fn level_texts(daemon: &Daemon) -> Vec<String> {
    daemon
        .monitor_states
        .read()
        .available_adapter_list
        .iter()
        .map(|state| f64::from_bits(state.get_brightness_state().get().bits).to_string())
        .collect()
}

fn act(daemon: &mut Daemon, input: ProgramInput) -> InputAction {
    assert!(daemon.can_answer(&input));
    let levels = level_texts(daemon);
    daemon.process_input(input, SocketMessageHolder::new(3), &levels)
}

fn answer(daemon: &mut Daemon, input: ProgramInput) -> (ExitStatus, Vec<String>) {
    let action = act(daemon, input);
    assert_eq!(action.exit_code(), ProcessInputExitCode::Normal);
    match action {
        InputAction::Respond(reply) => {
            assert_eq!(reply.socket, 3);
            (reply.response.exit_status, reply.response.messages)
        }
        _ => panic!("no answer"),
    }
}

fn told(reply: Reply) -> (ExitStatus, Vec<String>) {
    (reply.response.exit_status, reply.response.messages)
}

fn words(command: &CommandLine) -> Vec<String> {
    let mut list = vec![command.program.clone()];
    for argument in &command.arguments {
        list.push(match argument {
            Argument::Text(text) => text.clone(),
            Argument::Fraction(level) => format!("{:.5}", f64::from_bits(level.bits) / 100.0),
        });
    }
    list
}

fn success(text: &str) -> (ExitStatus, Vec<String>) {
    (ExitStatus::Success, vec![text.to_string()])
}

fn failure(text: &str) -> (ExitStatus, Vec<String>) {
    (ExitStatus::Failure, vec![text.to_string()])
}

#[test]
fn values_are_given() {
    let mut daemon = daemon();
    let property = |property| ProgramInput::Get(property);
    assert_eq!(
        answer(&mut daemon, property(GetProperty::Brightness(None))),
        success("A-1: 100\nB-2: 100\nC-3: 100")
    );
    assert_eq!(
        answer(&mut daemon, property(GetProperty::Brightness(Some(MonitorOverride::Enabled)))),
        success("A-1: 100\nB-2: 100")
    );
    assert_eq!(answer(&mut daemon, property(GetProperty::Displays(None))), success("A-1 B-2"));
    let displays = |monitors| ProgramInput::Get(GetProperty::Displays(Some(monitors)));
    assert_eq!(answer(&mut daemon, displays(MonitorOverride::All)), success("A-1 B-2 C-3"));
    assert_eq!(answer(&mut daemon, displays(MonitorOverride::Enabled)), success("A-1 B-2"));
    assert_eq!(answer(&mut daemon, displays(MonitorOverride::Active)), success("A-1"));
    let third = MonitorOverride::Specified { adapter_name: "c-3".to_string() };
    assert_eq!(answer(&mut daemon, displays(third)), success("C-3"));
    assert_eq!(answer(&mut daemon, property(GetProperty::ActiveMonitor)), success("A-1"));
    let states = daemon.monitor_states.write();
    assert!(states.try_hold_nightlight(1));
    states.flip_nightlight(1);
    states.set_fading(0, true);
    assert_eq!(answer(&mut daemon, property(GetProperty::Mode(None))), success("A-1: 0\nB-2: 1\nC-3: 0"));
    assert_eq!(
        answer(&mut daemon, property(GetProperty::IsFading(Some(MonitorOverride::Active)))),
        success("A-1: 1")
    );
}

#[test]
fn configuration_is_shown() {
    let mut daemon = daemon();
    daemon.config.monitor_default_behavior = MonitorOverride::Specified { adapter_name: "e\"DP".to_string() };
    let expected = "DaemonOptions { use_redshift: false, auto_remove_displays: true, fade_options: FadeOptions { threshold: 20, total_duration: 250, step_duration: 25 }, nightlight_options: NightlightOptions { xrandr_gamma: \"1.0:0.7:0.45\", redshift_temperature: 1400 }, monitor_default_behavior: Specified { adapter_name: \"e\\\"DP\" } }";
    assert_eq!(answer(&mut daemon, ProgramInput::Get(GetProperty::Config)), success(expected));
    assert_eq!(format!("{:?}", daemon.config), expected);
}

#[test]
fn shown_configuration_is_the_debug_text() {
    for monitors in [MonitorOverride::Active, MonitorOverride::Enabled, MonitorOverride::All] {
        let mut config = DaemonOptions::default();
        config.use_redshift = true;
        config.nightlight_options.xrandr_gamma = "\t1\\\u{7f}é".to_string();
        config.monitor_default_behavior = monitors;
        assert_eq!(config.show(), format!("{:?}", config));
    }
}

#[test]
fn values_of_a_missing_active_monitor_cannot_be_given() {
    let mut daemon = daemon();
    daemon.monitor_states.write().active_monitor = 9;
    assert!(!daemon.can_answer(&ProgramInput::Get(GetProperty::ActiveMonitor)));
    assert!(!daemon.can_answer(&ProgramInput::Get(GetProperty::Mode(Some(MonitorOverride::Active)))));
    assert!(!daemon.can_answer(&ProgramInput::ToggleNightlight(Some(MonitorOverride::Active))));
    assert!(daemon.can_answer(&ProgramInput::ToggleNightlight(None)));
    daemon.config.monitor_default_behavior = MonitorOverride::Active;
    assert!(!daemon.can_answer(&ProgramInput::ToggleNightlight(None)));
    assert!(daemon.can_answer(&ProgramInput::Get(GetProperty::Brightness(None))));
    assert!(daemon.can_answer(&ProgramInput::Shutdown));
}

#[test]
fn active_monitor_is_changed() {
    let mut daemon = daemon();
    let change = |text: &str| ProgramInput::ChangeActiveMonitor(ActiveMonitorChange::SetActive(text.to_string()));
    assert_eq!(answer(&mut daemon, change("1")), success("Set active monitor to B-2!"));
    assert_eq!(answer(&mut daemon, ProgramInput::Get(GetProperty::ActiveMonitor)), success("B-2"));
    assert_eq!(answer(&mut daemon, change("a-1")), success("Set active monitor to a-1!"));
    assert_eq!(answer(&mut daemon, ProgramInput::Get(GetProperty::ActiveMonitor)), success("A-1"));
    assert_eq!(answer(&mut daemon, change("2")), failure("Specified monitor is not enabled!"));
    assert_eq!(answer(&mut daemon, change("3")), failure("Specified index does not exist!"));
    assert_eq!(answer(&mut daemon, change("C-3")), failure("Requested monitor is disabled!"));
    assert_eq!(answer(&mut daemon, change("D-4")), failure("Requested monitor does not exist!"));
    assert_eq!(
        answer(&mut daemon, change("99999999999999999999999999")),
        failure("Requested monitor does not exist!")
    );
    assert_eq!(*daemon.monitor_states.read().get_active_monitor_index(), 0);
}

#[test]
fn displays_are_found_out_anew() {
    let mut daemon = daemon();
    let holder = match act(&mut daemon, ProgramInput::ConfigureDisplay) {
        InputAction::QueryDisplays(holder) => holder,
        _ => panic!("nothing to be found out"),
    };
    let reply = daemon.reconfigure_displays(holder, Ok(b"B-2 connected 5x5+0+0\nD-4 connected 1x1+0+0\n".to_vec()));
    assert_eq!(told(reply), success("Successfully reconfigured displays!"));
    assert_eq!(answer(&mut daemon, ProgramInput::Get(GetProperty::Displays(None))), success("B-2 D-4"));
    let reply = daemon.reconfigure_displays(SocketMessageHolder::new(1), Err("no xrandr".to_string()));
    assert_eq!(told(reply), failure("Failed to reconfigure displays: no xrandr"));
    assert_eq!(answer(&mut daemon, ProgramInput::Get(GetProperty::Displays(None))), success("B-2 D-4"));
}

fn sections() -> ConfigurationSections {
    ConfigurationSections {
        use_redshift: None,
        auto_remove_displays: None,
        fade_options: None,
        nightlight_options: None,
        monitor_default_behavior: None,
    }
}

#[test]
fn configuration_is_reloaded() {
    let mut daemon = daemon();
    let holder = match act(&mut daemon, ProgramInput::ReloadConfiguration) {
        InputAction::ReadConfiguration(holder) => holder,
        _ => panic!("nothing to be read"),
    };
    let mut file = sections();
    file.use_redshift = Some(Ok(true));
    file.monitor_default_behavior =
        Some(Ok(MonitorOverrideTOMLCompatible::Specified { adapter_name: "A-1".to_string() }));
    assert_eq!(
        told(daemon.reload_configuration(holder, Ok(Ok(file)))),
        success("Successfully reloaded configuration!")
    );
    assert!(daemon.config.use_redshift);
    assert!(daemon.config.auto_remove_displays);
    assert!(matches!(&daemon.config.monitor_default_behavior,
        MonitorOverride::Specified { adapter_name } if adapter_name == "A-1"));
    let reply = daemon.reload_configuration(SocketMessageHolder::new(1), Err("locked".to_string()));
    assert_eq!(told(reply), failure("Failed to open configuration file for reloading: locked"));
    let reply = daemon.reload_configuration(SocketMessageHolder::new(1), Ok(Err("not TOML".to_string())));
    assert_eq!(told(reply), failure("Failed to parse configuration file: not TOML"));
    let mut file = sections();
    file.fade_options = Some(Err("fade?".to_string()));
    file.nightlight_options = Some(Err("light?".to_string()));
    let reply = daemon.reload_configuration(SocketMessageHolder::new(1), Ok(Ok(file)));
    assert_eq!(told(reply), failure("Failed to parse configuration file: fade?"));
    assert!(daemon.config.use_redshift);
}

#[test]
fn sections_replace_the_defaults() {
    let mut file = sections();
    file.auto_remove_displays = Some(Ok(false));
    file.fade_options = Some(Ok(FadeOptions { threshold: 1, total_duration: 2, step_duration: 3 }));
    file.nightlight_options =
        Some(Ok(NightlightOptions { xrandr_gamma: "1:1:1".to_string(), redshift_temperature: 4000 }));
    file.monitor_default_behavior = Some(Ok(MonitorOverrideTOMLCompatible::All));
    let options = overwrite_values(file).unwrap();
    assert!(!options.use_redshift);
    assert!(!options.auto_remove_displays);
    assert_eq!(options.fade_options, FadeOptions { threshold: 1, total_duration: 2, step_duration: 3 });
    assert_eq!(options.nightlight_options.redshift_temperature, 4000);
    assert!(matches!(options.monitor_default_behavior, MonitorOverride::All));
    assert_eq!(overwrite_values(sections()).unwrap().show(), DaemonOptions::default().show());
    let mut file = sections();
    file.use_redshift = Some(Err("first".to_string()));
    file.monitor_default_behavior = Some(Err("last".to_string()));
    assert_eq!(overwrite_values(file).err(), Some("first".to_string()));
}

#[test]
fn template_describes_the_defaults() {
    let template: toml::Value = toml::from_str(CONFIG_TEMPLATE).unwrap();
    let defaults = DaemonOptions::default();
    assert_eq!(template["use_redshift"].as_bool(), Some(defaults.use_redshift));
    assert_eq!(template["auto_remove_displays"].as_bool(), Some(defaults.auto_remove_displays));
    let fade = &template["fade_options"];
    assert_eq!(fade["threshold"].as_integer(), Some(defaults.fade_options.threshold as i64));
    assert_eq!(fade["total_duration"].as_integer(), Some(defaults.fade_options.total_duration as i64));
    assert_eq!(fade["step_duration"].as_integer(), Some(defaults.fade_options.step_duration as i64));
    let nightlight = &template["nightlight_options"];
    assert_eq!(nightlight["xrandr_gamma"].as_str(), Some(&*defaults.nightlight_options.xrandr_gamma));
    assert_eq!(
        nightlight["redshift_temperature"].as_integer(),
        Some(defaults.nightlight_options.redshift_temperature as i64)
    );
    assert_eq!(template["monitor_default_behavior"]["type"].as_str(), Some("Enabled"));
}

#[test]
fn template_versions() {
    let first = CONFIG_TEMPLATE.lines().next().unwrap();
    assert!(is_template_current(Some(first)));
    assert!(is_template_current(Some("# v2.1.2")));
    assert!(is_template_current(Some("xyz2.1.2")));
    assert!(!is_template_current(Some("# v2.1.1")));
    assert!(!is_template_current(Some("# v2.1.22")));
    assert!(!is_template_current(Some("# v2.1.")));
    assert!(!is_template_current(Some("# ")));
    assert!(!is_template_current(Some("")));
    assert!(!is_template_current(None));
}

#[test]
fn configuration_to_start_with() {
    let initial = initial_configuration(None);
    assert!(initial.write_template);
    assert_eq!(initial.options.show(), DaemonOptions::default().show());
    let initial = initial_configuration(Some(Err("not TOML".to_string())));
    assert!(!initial.write_template);
    assert_eq!(initial.options.show(), DaemonOptions::default().show());
    let mut file = sections();
    file.use_redshift = Some(Ok(true));
    let initial = initial_configuration(Some(Ok(file)));
    assert!(!initial.write_template);
    assert!(initial.options.use_redshift);
    let mut file = sections();
    file.use_redshift = Some(Ok(true));
    file.fade_options = Some(Err("bad".to_string()));
    let initial = initial_configuration(Some(Ok(file)));
    assert!(!initial.options.use_redshift);
}

#[test]
fn state_is_saved_at_shutdown() {
    let mut daemon = daemon();
    let action = act(&mut daemon, ProgramInput::Shutdown);
    assert_eq!(action.exit_code(), ProcessInputExitCode::Shutdown);
    let (state, holder) = match action {
        InputAction::Save { state, holder } => (state, holder),
        _ => panic!("nothing to be saved"),
    };
    assert_eq!(state.brightness_states.len(), 3);
    assert_eq!(state.brightness_states["C-3"].brightness, level(100.0));
    assert_eq!(told(finish_save(holder, Ok(()))), success("Successfully saved configuration!"));
    let reply = finish_save(SocketMessageHolder::new(1), Err("disk full".to_string()));
    assert_eq!(told(reply), failure("Failed to save configuration: disk full"));
}

#[test]
fn brightness_requests_become_tasks() {
    let mut daemon = daemon();
    assert_eq!(
        answer(&mut daemon, ProgramInput::Brightness(BrightnessInput::default())),
        (ExitStatus::Success, vec![])
    );
    let mut input = BrightnessInput::default();
    input.brightness = Some(BrightnessChange::Adjustment(-3));
    match act(&mut daemon, ProgramInput::Brightness(input)) {
        InputAction::Brightness(task) => {
            assert_eq!(task.inputs.len(), 1);
            assert!(matches!(task.inputs[0].info, BrightnessInputInfo::UnProcessed));
            assert_eq!(task.inputs[0].brightness_input.brightness, Some(BrightnessChange::Adjustment(-3)));
            assert!(task.held.is_empty());
        }
        _ => panic!("no task"),
    }
    let mut input = BrightnessInput::default();
    input.terminate_fade = true;
    assert!(matches!(act(&mut daemon, ProgramInput::Brightness(input)), InputAction::Brightness(_)));
}

fn toggle(daemon: &mut Daemon, monitors: Option<MonitorOverride>, failing: Option<&str>) -> (ExitStatus, Vec<String>) {
    let mut task = match act(daemon, ProgramInput::ToggleNightlight(monitors)) {
        InputAction::ToggleNightlight(task) => task,
        _ => panic!("no task"),
    };
    loop {
        let Daemon { monitor_states, config } = daemon;
        match task.next(monitor_states.write(), config) {
            NightlightTurn::Respond(reply) => return told(reply),
            NightlightTurn::Busy(_) => panic!("somebody is in the way"),
            NightlightTurn::Refresh { switch, refresh } => {
                assert!(refresh.auto_remove_displays);
                let outcomes: Vec<CommandOutcome> = refresh
                    .commands
                    .iter()
                    .map(|_| match failing {
                        Some(reason) => CommandOutcome::WaitFailed(reason.to_string()),
                        None => CommandOutcome::Exited(true),
                    })
                    .collect();
                task = switch.refreshed(monitor_states.write(), &outcomes);
            }
        }
    }
}

fn nightlights(daemon: &Daemon) -> Vec<bool> {
    daemon
        .monitor_states
        .read()
        .available_adapter_list
        .iter()
        .map(|state| state.get_brightness_state().nightlight.get())
        .collect()
}

#[test]
fn nightlights_are_switched_over() {
    let mut daemon = daemon();
    let both = (ExitStatus::Success, vec!["Enabled nightlight".to_string(), "Enabled nightlight".to_string()]);
    assert_eq!(toggle(&mut daemon, None, None), both);
    assert_eq!(nightlights(&daemon), vec![true, true, false]);
    let one = MonitorOverride::Specified { adapter_name: "b-2".to_string() };
    assert_eq!(toggle(&mut daemon, Some(one), None), success("Disabled nightlight"));
    assert_eq!(nightlights(&daemon), vec![true, false, false]);
    let messages = toggle(&mut daemon, None, None).1;
    assert_eq!(messages, vec!["Disabled nightlight", "Enabled nightlight"]);
    assert_eq!(nightlights(&daemon), vec![false, true, false]);
    assert_eq!(level_texts(&daemon), vec!["100", "100", "100"]);
}

#[test]
fn switching_twice_restores() {
    let mut daemon = daemon();
    toggle(&mut daemon, Some(MonitorOverride::All), None);
    assert_eq!(nightlights(&daemon), vec![true, true, true]);
    toggle(&mut daemon, Some(MonitorOverride::All), None);
    assert_eq!(nightlights(&daemon), vec![false, false, false]);
    let one = MonitorOverride::Specified { adapter_name: "B-2".to_string() };
    for monitors in [MonitorOverride::Active, MonitorOverride::Enabled, one] {
        toggle(&mut daemon, Some(monitors.clone()), None);
        assert!(nightlights(&daemon).contains(&true));
        toggle(&mut daemon, Some(monitors), None);
        assert_eq!(nightlights(&daemon), vec![false, false, false]);
    }
    assert_eq!(level_texts(&daemon), vec!["100", "100", "100"]);
}

#[test]
fn nightlight_failures_are_reported() {
    let mut daemon = daemon();
    let one = MonitorOverride::Specified { adapter_name: "A-1".to_string() };
    assert_eq!(toggle(&mut daemon, Some(one), Some("lost")), failure("Failed to refresh xrandr: lost"));
    assert_eq!(nightlights(&daemon), vec![true, false, false]);
    let nobody = MonitorOverride::Specified { adapter_name: "X-1".to_string() };
    assert_eq!(
        answer(&mut daemon, ProgramInput::ToggleNightlight(Some(nobody))),
        failure("No monitors found to toggle nightlight")
    );
}

#[test]
fn held_nightlights_are_waited_for() {
    let mut daemon = daemon();
    assert!(daemon.monitor_states.write().try_hold_nightlight(0));
    assert!(!daemon.monitor_states.write().try_hold_nightlight(0));
    let task = NightlightTask { indices: vec![0], done: 0, holder: SocketMessageHolder::new(1) };
    let Daemon { monitor_states, config } = &mut daemon;
    let task = match task.next(monitor_states.write(), config) {
        NightlightTurn::Busy(task) => task,
        _ => panic!("the nightlight is held"),
    };
    monitor_states.write().release_nightlight(0);
    assert!(matches!(task.next(monitor_states.write(), config), NightlightTurn::Refresh { .. }));
}

#[test]
fn commands_for_xrandr() {
    let mut daemon = daemon();
    let states = daemon.monitor_states.write();
    assert!(states.try_hold(1));
    states.set_level(1, level(12.5));
    assert!(states.try_hold_nightlight(1));
    states.flip_nightlight(1);
    let (monitors, commands) = create_xrandr_commands(daemon.monitor_states.read(), &daemon.config, &vec![1, 0]);
    assert_eq!(monitors, vec![1, 0]);
    assert_eq!(
        words(&commands[0]),
        vec!["xrandr", "--output", "B-2", "--brightness", "0.12500", "--gamma", "1.0:0.7:0.45"]
    );
    assert_eq!(words(&commands[1]), vec!["xrandr", "--output", "A-1", "--brightness", "1.00000"]);
}

#[test]
fn one_light_is_shown_like_each() {
    let daemon = daemon();
    let (_, each) = create_xrandr_commands(daemon.monitor_states.read(), &daemon.config, &vec![0, 1]);
    let light = SingleLight { level: level(100.0), nightlight: false };
    let displays = get_current_connected_displays(&OUTPUT.as_bytes().to_vec());
    let all = create_xrandr_commands_with_brightness(&displays, light, &daemon.config);
    assert_eq!(each.iter().map(words).collect::<Vec<_>>(), all.iter().map(words).collect::<Vec<_>>());
}

#[test]
fn commands_for_redshift() {
    let mut daemon = daemon();
    daemon.config.use_redshift = true;
    let states = daemon.monitor_states.write();
    assert!(states.try_hold_nightlight(1));
    states.flip_nightlight(1);
    let (monitors, commands) = create_xrandr_commands(daemon.monitor_states.read(), &daemon.config, &vec![0, 1]);
    assert_eq!(monitors, vec![0, 0, 1, 1]);
    assert_eq!(commands.len(), 4);
    assert_eq!(words(&commands[0]), vec!["xrandr", "--output", "A-1", "--brightness", "1.00000"]);
    assert_eq!(words(&commands[1]), vec!["redshift", "-PO", "6500"]);
    assert_eq!(words(&commands[2]), vec!["xrandr", "--output", "B-2", "--brightness", "1.00000"]);
    assert_eq!(words(&commands[3]), vec!["redshift", "-PO", "1400"]);
}

#[test]
fn all_connected_monitors_are_shown_at_the_start() {
    let mut daemon = daemon();
    let refresh = daemon.refresh_brightness_all();
    assert_eq!(refresh.monitors, vec![0, 1]);
    assert!(refresh.auto_remove_displays);
    let outcomes = vec![CommandOutcome::Exited(true), CommandOutcome::Exited(false)];
    assert_eq!(daemon.refresh_configuration(&refresh.monitors, &outcomes), Ok(()));
    assert!(!daemon.monitor_states.read().is_monitor_index_enabled(1));
    let outcomes = vec![CommandOutcome::WaitFailed("lost".to_string())];
    assert_eq!(daemon.refresh_configuration(&vec![0], &outcomes), Err("lost".to_string()));
}

#[test]
fn outcomes_are_looked_at_from_the_end() {
    let mut daemon = daemon();
    let states = daemon.monitor_states.write();
    let outcomes = vec![
        CommandOutcome::Exited(false),
        CommandOutcome::WaitFailed("middle".to_string()),
        CommandOutcome::Exited(false),
    ];
    assert_eq!(finish_refresh(states, &vec![0, 1, 1], &outcomes, true), Err("middle".to_string()));
    assert!(states.is_monitor_index_enabled(0));
    assert!(!states.is_monitor_index_enabled(1));
    let outcomes = vec![CommandOutcome::Exited(true), CommandOutcome::NotStarted("x".to_string())];
    assert_eq!(finish_refresh(states, &vec![0, 1], &outcomes, true), Ok(false));
    assert_eq!(finish_refresh(states, &vec![0], &vec![CommandOutcome::Exited(false)], true), Ok(true));
    assert!(!states.is_monitor_index_enabled(0));
    assert_eq!(finish_refresh(states, &vec![0, 1], &outcomes, false), Err("x".to_string()));
    assert_eq!(start_result(&vec![CommandOutcome::Started, CommandOutcome::Started]), Ok(false));
}
