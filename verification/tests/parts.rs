use brightness_control::daemon::config::persistent::DaemonOptions;
use brightness_control::daemon::config::runtime::{
    BrightnessInputInfo, BrightnessState, ForwardedBrightnessInput,
};
use brightness_control::daemon::engine::commands::{Argument, CommandLine};
use brightness_control::daemon::engine::single::{
    clear_redshift, create_xrandr_commands_with_brightness, enable_redshift, get_current_connected_displays,
    get_formatted_displays_list, get_written_mode, mode_or_default, refresh_redshift, toggled_mode, write_mode,
    SingleLight,
};
use brightness_control::daemon::util::atomic::{Atomic, AtomicBool, AtomicF64};
use brightness_control::daemon::util::io::SocketMessageHolder;
use brightness_control::daemon::util::lock::NonReadBlockingRWLock;
use brightness_control::level::Level;
use brightness_control::shared::{
    BrightnessInput, ExitStatus, MonitorOverride, MonitorOverrideTOMLCompatible,
};

fn level(value: f64) -> Level {
    Level { bits: value.to_bits() }
}

#[test]
fn cells_hold_values() {
    let mut cell = AtomicBool::new(true);
    assert!(cell.load());
    cell.store(false);
    assert!(!cell.load());
    let mut cell = AtomicF64::new(level(1.5));
    assert_eq!(cell.load(), level(1.5));
    cell.store(level(-2.25));
    assert_eq!(cell.load(), level(-2.25));
}

#[test]
fn a_lock_has_one_holder() {
    let mut lock: NonReadBlockingRWLock<AtomicF64, Vec<u8>> = NonReadBlockingRWLock::new(level(1.0), vec![7]);
    assert_eq!(lock.get(), level(1.0));
    lock.set_value(level(2.0));
    {
        let mut guard = lock.try_lock_mut().unwrap();
        assert_eq!(guard.get(), level(2.0));
        guard.set(level(3.0));
        let (value, list) = guard.split();
        assert_eq!(value.load(), level(3.0));
        list.push(8);
    }
    assert_eq!(lock.get(), level(3.0));
    assert!(lock.try_lock_mut().is_some());
    lock.lock_mut().set(level(3.5));
    assert_eq!(lock.get(), level(3.5));
    assert!(lock.try_hold());
    assert!(!lock.try_hold());
    assert!(lock.try_lock_mut().is_none());
    lock.held().set(level(4.0));
    assert_eq!(*lock.held().mutex_guard, vec![7, 8]);
    lock.unlock();
    assert!(lock.try_lock_mut().is_some());
    assert_eq!(lock.get(), level(4.0));
}

#[test]
fn a_light_passes_requests_on() {
    let mut state = BrightnessState::new(level(30.0), true);
    assert_eq!(state.get(), level(30.0));
    assert!(state.nightlight.get());
    assert!(state.try_lock_brightness().is_some());
    assert!(state.try_lock_brightness().is_some());
    state.lock_brightness().set(level(31.0));
    assert!(state.brightness.try_hold());
    assert_eq!(state.get(), level(31.0));
    assert!(state.try_lock_brightness().is_none());
    state.forward(ForwardedBrightnessInput::new_unprocessed(
        BrightnessInput::default(),
        SocketMessageHolder::new(11),
    ));
    assert_eq!(state.brightness.write_mutex.len(), 1);
    assert_eq!(state.brightness.write_mutex[0].socket_message_holder.socket, 11);
}

#[test]
fn monitors_of_a_request_are_written_down() {
    let mut info = BrightnessInputInfo::UnProcessed;
    assert!(info.is_unprocessed());
    info.transform_unprocessed(vec![2, 4]);
    assert!(!info.is_unprocessed());
    match info {
        BrightnessInputInfo::Processed { relevant_monitor_indices } => assert_eq!(relevant_monitor_indices, vec![2, 4]),
        _ => panic!("nothing is written down"),
    }
}

#[test]
fn answers_fail_with_one_error() {
    let mut holder = SocketMessageHolder::new(5);
    holder.queue_success("fine".to_string());
    holder.queue_message("fine too".to_string(), false);
    let reply = holder.consume();
    assert_eq!(reply.socket, 5);
    assert_eq!(reply.response.exit_status, ExitStatus::Success);
    assert_eq!(reply.response.messages, vec!["fine", "fine too"]);
    let mut holder = SocketMessageHolder::new(6);
    holder.queue_success("fine".to_string());
    holder.queue_error("broken".to_string());
    holder.queue_success("fine again".to_string());
    let reply = holder.consume();
    assert_eq!(reply.response.exit_status, ExitStatus::Failure);
    assert_eq!(reply.response.messages, vec!["fine", "broken", "fine again"]);
    assert_eq!(SocketMessageHolder::new(1).consume().response.exit_status, ExitStatus::Success);
}

#[test]
fn choices_of_the_configuration_are_converted() {
    let from = |value| MonitorOverride::from(value);
    assert!(matches!(from(MonitorOverrideTOMLCompatible::Active), MonitorOverride::Active));
    assert!(matches!(from(MonitorOverrideTOMLCompatible::Enabled), MonitorOverride::Enabled));
    assert!(matches!(from(MonitorOverrideTOMLCompatible::All), MonitorOverride::All));
    let named = MonitorOverrideTOMLCompatible::Specified { adapter_name: "x".to_string() };
    assert!(matches!(from(named), MonitorOverride::Specified { adapter_name } if adapter_name == "x"));
    let chosen = MonitorOverride::Specified { adapter_name: "y".to_string() };
    assert!(matches!(chosen.clone(), MonitorOverride::Specified { adapter_name } if adapter_name == "y"));
}

fn words(command: &CommandLine) -> Vec<String> {
    let mut list = vec![command.program.clone()];
    for argument in &command.arguments {
        list.push(match argument {
            Argument::Text(text) => text.clone(),
            Argument::Fraction(level) => format!("{:.2}", f64::from_bits(level.bits) / 100.0),
        });
    }
    list
}

#[test]
fn one_light_for_all_displays() {
    let output = "A-1 connected 1x1+0+0\nB-2 disconnected (normal)\nC-3 connected 2x2+0+0\n";
    let displays = get_current_connected_displays(&output.as_bytes().to_vec());
    assert_eq!(displays.len(), 2);
    assert_eq!(get_formatted_displays_list(&displays), "A-1 C-3");
    let mut config = DaemonOptions::default();
    let light = SingleLight { level: level(50.0), nightlight: true };
    let commands = create_xrandr_commands_with_brightness(&displays, light, &config);
    assert_eq!(commands.len(), 2);
    assert_eq!(
        words(&commands[1]),
        vec!["xrandr", "--output", "C-3", "--brightness", "0.50", "--gamma", "1.0:0.7:0.45"]
    );
    config.use_redshift = true;
    let commands = create_xrandr_commands_with_brightness(&displays, light, &config);
    assert_eq!(words(&commands[0]), vec!["xrandr", "--output", "A-1", "--brightness", "0.50"]);
    assert_eq!(words(&refresh_redshift(light, &config)), vec!["redshift", "-O", "1400"]);
    assert_eq!(words(&enable_redshift(&config)), vec!["redshift", "-O", "1400"]);
    assert_eq!(words(&clear_redshift(&config)), vec!["redshift", "-x"]);
    let day = SingleLight { nightlight: false, ..light };
    assert_eq!(words(&refresh_redshift(day, &config)), vec!["redshift", "-x"]);
}

#[test]
fn modes_are_read() {
    assert_eq!(get_written_mode("0"), Some(false));
    assert_eq!(get_written_mode("1"), Some(true));
    assert_eq!(get_written_mode("2"), None);
    assert_eq!(get_written_mode(""), None);
    assert_eq!(get_written_mode("true"), None);
    let initial = mode_or_default(Some("1"));
    assert!(initial.nightlight && !initial.write_default);
    let initial = mode_or_default(Some("x"));
    assert!(!initial.nightlight && initial.write_default);
    assert!(mode_or_default(None).write_default);
    assert_eq!(toggled_mode('0'), '1');
    assert_eq!(toggled_mode('1'), '0');
    assert_eq!(toggled_mode('x'), '0');
}

#[test]
fn written_modes_are_read_back() {
    assert_eq!(write_mode(false), "0");
    assert_eq!(write_mode(true), "1");
    for mode in [false, true] {
        assert_eq!(get_written_mode(&write_mode(mode)), Some(mode));
        let initial = mode_or_default(Some(&write_mode(mode)));
        assert!(initial.nightlight == mode && !initial.write_default);
    }
}
