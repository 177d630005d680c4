use brightness_control::daemon::config::persistent::DaemonOptions;
use brightness_control::daemon::config::runtime::{BrightnessInputInfo, ForwardedBrightnessInput};
use brightness_control::daemon::engine::brightness::{
    relevant_indices, target, BrightnessTask, Change, Measurement, Refresh, Turn,
};
use brightness_control::daemon::engine::commands::{Argument, CommandOutcome};
use brightness_control::daemon::engine::display::CollectiveMonitorStateInternal;
use brightness_control::daemon::engine::fade::{Fade, Heard, Progress, Settled};
use brightness_control::daemon::engine::monitor::get_available_displays;
use brightness_control::daemon::util::io::{Reply, SocketMessageHolder};
use brightness_control::level::Level;
use brightness_control::shared::{BrightnessChange, BrightnessInput, ExitStatus, MonitorOverride};
use fnv::FnvHashMap;

fn level(value: f64) -> Level {
    Level { bits: value.to_bits() }
}

fn states() -> CollectiveMonitorStateInternal {
    let output = "A-1 connected 1x1+0+0\nB-2 connected 1x1+0+0\nC-3 disconnected (normal)\n";
    CollectiveMonitorStateInternal::new(0, FnvHashMap::default(), get_available_displays(&output.as_bytes().to_vec()))
}

fn input(change: Option<BrightnessChange>, fade: Option<bool>, monitors: Option<MonitorOverride>) -> BrightnessInput {
    BrightnessInput { brightness: change, override_fade: fade, override_monitor: monitors, terminate_fade: false }
}

fn named(name: &str) -> Option<MonitorOverride> {
    Some(MonitorOverride::Specified { adapter_name: name.to_string() })
}

fn task(request: BrightnessInput, socket: u64) -> BrightnessTask {
    BrightnessTask::new(request, SocketMessageHolder::new(socket))
}

fn shifts(measurement: &Measurement) -> Vec<u8> {
    measurement
        .changes
        .iter()
        .map(|change| (change.target as f64 - f64::from_bits(change.start.bits)).abs() as u8)
        .collect()
}

fn measurement(turn: Turn) -> Measurement {
    match turn {
        Turn::Measure(measurement) => measurement,
        _ => panic!("the request is not carried out"),
    }
}

fn response(turn: Turn) -> (Reply, BrightnessTask) {
    match turn {
        Turn::Respond { reply, task } => (reply, task),
        _ => panic!("the request is not answered"),
    }
}

fn successes(refresh: &Refresh) -> Vec<CommandOutcome> {
    refresh.commands.iter().map(|_| CommandOutcome::Exited(true)).collect()
}

fn levels(states: &CollectiveMonitorStateInternal) -> Vec<f64> {
    states
        .available_adapter_list
        .iter()
        .map(|state| f64::from_bits(state.get_brightness_state().get().bits))
        .collect()
}

fn held(states: &CollectiveMonitorStateInternal) -> Vec<bool> {
    states.available_adapter_list.iter().map(|state| state.brightness_state.brightness.locked).collect()
}

fn begin(settled: Settled) -> (Fade, Refresh) {
    match settled {
        Settled::Begin { fade, refresh } => (fade, refresh),
        _ => panic!("there is no fade"),
    }
}

fn outcome(settled: Settled) -> (Reply, BrightnessTask) {
    match settled {
        Settled::Respond { reply, task } => (reply, task),
        _ => panic!("a fade begins"),
    }
}

#[test]
fn targets() {
    assert_eq!(target(&Some(BrightnessChange::SetTo(3)), level(50.0)), 3);
    assert_eq!(target(&Some(BrightnessChange::SetTo(200)), level(50.0)), 200);
    assert_eq!(target(&Some(BrightnessChange::Adjustment(10)), level(50.75)), 60);
    assert_eq!(target(&Some(BrightnessChange::Adjustment(-10)), level(50.75)), 40);
    assert_eq!(target(&Some(BrightnessChange::Adjustment(-100)), level(50.0)), 10);
    assert_eq!(target(&Some(BrightnessChange::Adjustment(100)), level(50.0)), 100);
    assert_eq!(target(&Some(BrightnessChange::Adjustment(-128)), level(-1e9)), 10);
    assert_eq!(target(&Some(BrightnessChange::Adjustment(127)), level(1e9)), 100);
    assert_eq!(target(&None, level(33.9)), 33);
}

#[test]
fn a_change_is_made_at_once() {
    let config = DaemonOptions::default();
    let mut states = states();
    let request = input(Some(BrightnessChange::SetTo(42)), Some(false), None);
    let measurement = measurement(task(request, 9).next(&mut states, &config));
    assert_eq!(
        measurement.changes,
        vec![
            Change { index: 0, start: level(100.0), target: 42 },
            Change { index: 1, start: level(100.0), target: 42 },
        ]
    );
    assert_eq!(held(&states), vec![true, true, false]);
    let shifts = shifts(&measurement);
    assert_eq!(shifts, vec![58, 58]);
    let (settlement, refresh) = measurement.measured(&mut states, &config, &shifts);
    assert_eq!(levels(&states), vec![42.0, 42.0, 100.0]);
    assert_eq!(refresh.monitors, vec![0, 1]);
    assert!(refresh.auto_remove_displays);
    assert_eq!(refresh.commands[1].program, "xrandr");
    match &refresh.commands[1].arguments[3] {
        Argument::Fraction(fraction) => assert_eq!(*fraction, level(42.0)),
        _ => panic!("no fraction"),
    }
    let (reply, task) = outcome(settlement.refreshed(&mut states, &config, &successes(&refresh)));
    assert_eq!(reply.socket, 9);
    assert_eq!(reply.response.exit_status, ExitStatus::Success);
    assert_eq!(reply.response.messages, vec!["A-1: 42", "B-2: 42"]);
    assert_eq!(task.held, vec![0, 1]);
    assert!(matches!(task.next(&mut states, &config), Turn::Finished));
    assert_eq!(held(&states), vec![false, false, false]);
}

#[test]
fn commands_that_fail_drop_their_monitors() {
    let config = DaemonOptions::default();
    let mut states = states();
    let request = input(Some(BrightnessChange::Adjustment(-5)), None, None);
    let measurement = measurement(task(request, 1).next(&mut states, &config));
    let shifts = shifts(&measurement);
    let (settlement, _) = measurement.measured(&mut states, &config, &shifts);
    let outcomes = vec![CommandOutcome::Exited(false), CommandOutcome::NotStarted("gone".to_string())];
    let (reply, _) = outcome(settlement.refreshed(&mut states, &config, &outcomes));
    assert_eq!(reply.response.messages, vec!["A-1: 95", "B-2: 95"]);
    assert!(!states.is_monitor_index_enabled(0));
    assert!(states.is_monitor_index_enabled(1));
}

#[test]
fn commands_whose_end_is_unknown_are_reported() {
    let config = DaemonOptions::default();
    let mut states = states();
    let request = input(Some(BrightnessChange::Adjustment(-5)), None, None);
    let measurement = measurement(task(request, 1).next(&mut states, &config));
    let shifts = shifts(&measurement);
    let (settlement, _) = measurement.measured(&mut states, &config, &shifts);
    let outcomes = vec![CommandOutcome::Exited(false), CommandOutcome::WaitFailed("lost".to_string())];
    let (reply, _) = outcome(settlement.refreshed(&mut states, &config, &outcomes));
    assert_eq!(reply.response.exit_status, ExitStatus::Failure);
    assert_eq!(reply.response.messages, vec!["Failed to refresh brightness: lost"]);
    assert!(states.is_monitor_index_enabled(0));
    assert_eq!(levels(&states), vec![95.0, 95.0, 100.0]);
}

#[test]
fn without_auto_removal_the_first_start_failure_counts() {
    let mut config = DaemonOptions::default();
    config.auto_remove_displays = false;
    let mut states = states();
    let request = input(Some(BrightnessChange::SetTo(90)), None, None);
    let measurement = measurement(task(request, 1).next(&mut states, &config));
    let shifts = shifts(&measurement);
    let (settlement, refresh) = measurement.measured(&mut states, &config, &shifts);
    assert!(!refresh.auto_remove_displays);
    let outcomes = vec![CommandOutcome::Started, CommandOutcome::NotStarted("missing".to_string())];
    let (reply, _) = outcome(settlement.refreshed(&mut states, &config, &outcomes));
    assert_eq!(reply.response.messages, vec!["Failed to refresh brightness: missing"]);
    assert!(states.is_monitor_index_enabled(1));
}

#[test]
fn unknown_monitors_are_refused() {
    let config = DaemonOptions::default();
    let mut states = states();
    let request = input(Some(BrightnessChange::SetTo(50)), None, named("VGA-1"));
    let (reply, task) = response(task(request, 4).next(&mut states, &config));
    assert_eq!(reply.socket, 4);
    assert_eq!(reply.response.exit_status, ExitStatus::Failure);
    assert_eq!(reply.response.messages, vec!["No monitors found to change brightness"]);
    assert!(matches!(task.next(&mut states, &config), Turn::Finished));
    assert_eq!(levels(&states), vec![100.0, 100.0, 100.0]);
}

#[test]
fn disconnected_monitors_are_refused() {
    let config = DaemonOptions::default();
    let mut states = states();
    states.active_monitor = 2;
    for monitors in [named("C-3"), Some(MonitorOverride::Active)] {
        let request = input(Some(BrightnessChange::SetTo(50)), None, monitors);
        let (reply, _) = response(task(request, 4).next(&mut states, &config));
        assert_eq!(reply.response.messages, vec!["Monitor C-3 is not connected"]);
        assert_eq!(reply.response.exit_status, ExitStatus::Failure);
        assert_eq!(held(&states), vec![false, false, false]);
        assert_eq!(levels(&states), vec![100.0, 100.0, 100.0]);
    }
}

/// Changes brightnesses at once. Gives the levels, the programs with the monitors
/// that they are run for, and the messages.
fn changed_at_once(
    monitors: Option<MonitorOverride>,
    config: &DaemonOptions,
) -> (Vec<f64>, Vec<(String, usize)>, Vec<String>) {
    let mut states = states();
    let request = input(Some(BrightnessChange::SetTo(50)), Some(false), monitors);
    let measurement = measurement(task(request, 1).next(&mut states, config));
    let shifts = shifts(&measurement);
    let (settlement, refresh) = measurement.measured(&mut states, config, &shifts);
    let programs = refresh
        .commands
        .iter()
        .map(|command| command.program.clone())
        .zip(refresh.monitors.iter().copied())
        .collect();
    let (reply, _) = outcome(settlement.refreshed(&mut states, config, &successes(&refresh)));
    (levels(&states), programs, reply.response.messages)
}

#[test]
fn all_monitors_change_like_the_connected_ones() {
    let config = DaemonOptions::default();
    let all = changed_at_once(Some(MonitorOverride::All), &config);
    assert_eq!(all.0, vec![50.0, 50.0, 100.0]);
    assert_eq!(all.1, vec![("xrandr".to_string(), 0), ("xrandr".to_string(), 1)]);
    assert_eq!(all.2, vec!["A-1: 50", "B-2: 50"]);
    assert_eq!(changed_at_once(Some(MonitorOverride::Enabled), &config), all);
}

#[test]
fn without_a_choice_the_configuration_chooses() {
    let mut config = DaemonOptions::default();
    for name in ["A-1", "b-2"] {
        config.monitor_default_behavior = MonitorOverride::Specified { adapter_name: name.to_string() };
        assert_eq!(changed_at_once(None, &config), changed_at_once(named(name), &config));
    }
    assert_eq!(changed_at_once(None, &config).0, vec![100.0, 50.0, 100.0]);
    config.monitor_default_behavior = MonitorOverride::All;
    assert_eq!(changed_at_once(None, &config), changed_at_once(Some(MonitorOverride::All), &config));
    config.monitor_default_behavior = MonitorOverride::Active;
    assert_eq!(changed_at_once(None, &config), changed_at_once(Some(MonitorOverride::Active), &config));
    assert_eq!(changed_at_once(None, &config).0, vec![50.0, 100.0, 100.0]);
}

#[test]
fn redshift_leaves_the_brightness_to_xrandr() {
    let mut config = DaemonOptions::default();
    config.use_redshift = true;
    let (levels, programs, messages) = changed_at_once(None, &config);
    assert_eq!(levels, vec![50.0, 50.0, 100.0]);
    let expected: Vec<(String, usize)> = [("xrandr", 0), ("redshift", 0), ("xrandr", 1), ("redshift", 1)]
        .iter()
        .map(|(program, index)| (program.to_string(), *index))
        .collect();
    assert_eq!(programs, expected);
    assert_eq!(messages, vec!["A-1: 50", "B-2: 50"]);
}

#[test]
fn either_command_of_a_monitor_can_drop_it() {
    let mut config = DaemonOptions::default();
    config.use_redshift = true;
    for failing in [2, 3] {
        let mut states = states();
        let request = input(Some(BrightnessChange::SetTo(50)), Some(false), None);
        let measurement = measurement(task(request, 1).next(&mut states, &config));
        let shifts = shifts(&measurement);
        let (settlement, refresh) = measurement.measured(&mut states, &config, &shifts);
        let mut outcomes = successes(&refresh);
        outcomes[failing] = CommandOutcome::Exited(false);
        let _ = outcome(settlement.refreshed(&mut states, &config, &outcomes));
        assert!(states.is_monitor_index_enabled(0));
        assert!(!states.is_monitor_index_enabled(1));
    }
}

#[test]
fn requests_for_held_monitors_are_handed_over() {
    let config = DaemonOptions::default();
    let mut states = states();
    let first = measurement(
        task(input(Some(BrightnessChange::SetTo(50)), None, named("B-2")), 1).next(&mut states, &config),
    );
    assert_eq!(held(&states), vec![false, true, false]);
    let second = task(input(Some(BrightnessChange::SetTo(20)), None, None), 2);
    let turn = second.next(&mut states, &config);
    assert!(matches!(turn, Turn::HandedOver { to: 1 }));
    assert_eq!(held(&states), vec![false, true, false]);
    let inbox = &states.available_adapter_list[1].brightness_state.brightness.write_mutex;
    assert_eq!(inbox.len(), 1);
    assert_eq!(inbox[0].socket_message_holder.socket, 2);
    match &inbox[0].info {
        BrightnessInputInfo::Processed { relevant_monitor_indices } => {
            assert_eq!(*relevant_monitor_indices, vec![0, 1])
        }
        _ => panic!("the monitors are not written down"),
    }
    assert_eq!(first.changes.len(), 1);
    assert_eq!(levels(&states), vec![100.0, 100.0, 100.0]);
}

#[test]
fn everything_queued_is_handed_over_in_order() {
    let config = DaemonOptions::default();
    let mut states = states();
    assert!(states.try_hold(0));
    let mut task = task(input(Some(BrightnessChange::SetTo(50)), None, named("A-1")), 1);
    task.inputs.push_back(ForwardedBrightnessInput::new_unprocessed(
        input(None, None, None),
        SocketMessageHolder::new(2),
    ));
    task.inputs.push_back(ForwardedBrightnessInput::new_processed(
        input(None, None, None),
        SocketMessageHolder::new(3),
        vec![1],
    ));
    assert!(states.try_hold(1));
    task.held = vec![1];
    assert!(matches!(task.next(&mut states, &config), Turn::HandedOver { to: 0 }));
    assert_eq!(held(&states), vec![true, false, false]);
    let inbox = &states.available_adapter_list[0].brightness_state.brightness.write_mutex;
    let sockets: Vec<u64> = inbox.iter().map(|request| request.socket_message_holder.socket).collect();
    assert_eq!(sockets, vec![1, 2, 3]);
}

#[test]
fn monitors_that_are_no_longer_meant_are_let_go() {
    let config = DaemonOptions::default();
    let mut states = states();
    assert!(states.try_hold(0));
    let mut task = task(input(Some(BrightnessChange::SetTo(50)), None, named("B-2")), 1);
    task.held = vec![0];
    let measurement = measurement(task.next(&mut states, &config));
    assert_eq!(held(&states), vec![false, true, false]);
    assert_eq!(measurement.changes.len(), 1);
    assert_eq!(measurement.changes[0].index, 1);
}

#[test]
fn positions_of_monitors_can_be_missing() {
    let mut config = DaemonOptions::default();
    config.monitor_default_behavior = MonitorOverride::Active;
    let mut states = states();
    states.active_monitor = 7;
    let task = task(input(Some(BrightnessChange::SetTo(50)), None, None), 1);
    assert!(!task.is_ready(&states, &config));
    assert_eq!(relevant_indices(&task.inputs[0], &states, &config), vec![7]);
    states.active_monitor = 1;
    assert!(task.is_ready(&states, &config));
    assert!(BrightnessTask { inputs: Default::default(), held: vec![] }.is_ready(&states, &config));
}

fn advance(fade: &Fade, states: &mut CollectiveMonitorStateInternal, config: &DaemonOptions) -> Refresh {
    let next: Vec<Level> = fade
        .progress(states)
        .iter()
        .map(|progress: &Progress| {
            let start = f64::from_bits(progress.start.bits);
            level(f64::from_bits(progress.level.bits) + (progress.target as f64 - start) / progress.steps as f64)
        })
        .collect();
    fade.advance(states, config, &next)
}

fn start_fade(states: &mut CollectiveMonitorStateInternal, config: &DaemonOptions, request: BrightnessInput) -> Fade {
    let measurement = measurement(task(request, 5).next(states, config));
    let shifts = shifts(&measurement);
    assert!(measurement.needs_fade(states, config, &shifts));
    let (settlement, refresh) = measurement.measured(states, config, &shifts);
    assert!(refresh.commands.is_empty());
    let (mut fade, refresh) = begin(settlement.refreshed(states, config, &vec![]));
    assert_eq!(refresh.monitors.len(), refresh.commands.len());
    fade.begun(states, &successes(&refresh));
    fade
}

#[test]
fn a_fade_goes_step_by_step_to_exactly_the_target() {
    let config = DaemonOptions::default();
    let mut states = states();
    let request = input(Some(BrightnessChange::SetTo(40)), None, None);
    let mut fade = start_fade(&mut states, &config, request);
    assert!(states.available_adapter_list[0].brightness_state.is_fading);
    assert_eq!(fade.plan.steps, 10);
    assert_eq!(fade.plan.step_duration, 25);
    let mut steps = 0;
    while !fade.is_at_last_step() {
        let refresh = advance(&fade, &mut states, &config);
        assert!(!refresh.auto_remove_displays);
        assert_eq!(refresh.monitors, vec![0, 1]);
        fade.stepped(&vec![CommandOutcome::Started, CommandOutcome::Started]);
        steps += 1;
        assert!((levels(&states)[0] - (100.0 - 6.0 * steps as f64)).abs() < 1e-9);
        fade.tick();
    }
    assert_eq!(steps, 9);
    fade.finish(&mut states, &config);
    assert_eq!(levels(&states), vec![40.0, 40.0, 100.0]);
    let (reply, task) = fade.finished(&mut states, &vec![CommandOutcome::Started, CommandOutcome::Started]);
    assert_eq!(reply.socket, 5);
    assert_eq!(reply.response.exit_status, ExitStatus::Success);
    assert_eq!(reply.response.messages, vec!["A-1: 40", "B-2: 40"]);
    assert!(!states.available_adapter_list[0].brightness_state.is_fading);
    assert_eq!(held(&states), vec![true, true, false]);
    assert!(matches!(task.next(&mut states, &config), Turn::Finished));
    assert_eq!(held(&states), vec![false, false, false]);
}

/// The levels at every step of a fade, and the messages at its end.
fn faded(monitors: Option<MonitorOverride>, config: &DaemonOptions) -> (Vec<Vec<f64>>, Vec<String>) {
    let mut states = states();
    let request = input(Some(BrightnessChange::SetTo(40)), None, monitors);
    let mut fade = start_fade(&mut states, config, request);
    let mut steps = Vec::new();
    while !fade.is_at_last_step() {
        advance(&fade, &mut states, config);
        fade.stepped(&vec![CommandOutcome::Started, CommandOutcome::Started]);
        steps.push(levels(&states));
        fade.tick();
    }
    fade.finish(&mut states, config);
    steps.push(levels(&states));
    let (reply, _) = fade.finished(&mut states, &vec![CommandOutcome::Started, CommandOutcome::Started]);
    (steps, reply.response.messages)
}

#[test]
fn fades_do_not_depend_on_how_monitors_were_chosen() {
    let mut config = DaemonOptions::default();
    let enabled = faded(Some(MonitorOverride::Enabled), &config);
    assert_eq!(enabled.0.len(), 10);
    assert_eq!(enabled.0[9], vec![40.0, 40.0, 100.0]);
    assert_eq!(enabled.1, vec!["A-1: 40", "B-2: 40"]);
    assert_eq!(faded(Some(MonitorOverride::All), &config), enabled);
    config.monitor_default_behavior = MonitorOverride::Specified { adapter_name: "B-2".to_string() };
    assert_eq!(faded(None, &config), faded(named("B-2"), &config));
    assert_eq!(faded(None, &config).0[9], vec![100.0, 40.0, 100.0]);
}

#[test]
fn small_changes_do_not_fade() {
    let config = DaemonOptions::default();
    let mut states = states();
    let request = input(Some(BrightnessChange::SetTo(80)), None, None);
    let measurement = measurement(task(request, 5).next(&mut states, &config));
    let shifts = shifts(&measurement);
    assert_eq!(shifts, vec![20, 20]);
    assert!(!measurement.needs_fade(&states, &config, &shifts));
    assert!(measurement.needs_fade(&states, &config, &vec![20, 21]));
}

#[test]
fn fades_can_be_forced() {
    let config = DaemonOptions::default();
    let mut states = states();
    let request = input(Some(BrightnessChange::SetTo(99)), Some(true), named("a-1"));
    let fade = start_fade(&mut states, &config, request);
    assert_eq!(fade.fading, vec![Change { index: 0, start: level(100.0), target: 99 }]);
    assert_eq!(fade.held, vec![0]);
    assert_eq!(fade.steps_left, 9);
}

#[test]
fn some_monitors_fade_and_others_change_at_once() {
    let config = DaemonOptions::default();
    let mut states = states();
    assert!(states.try_hold(1));
    states.set_level(1, level(55.0));
    states.release(1);
    let request = input(Some(BrightnessChange::SetTo(50)), None, None);
    let measurement = measurement(task(request, 5).next(&mut states, &config));
    let shifts = shifts(&measurement);
    let (settlement, refresh) = measurement.measured(&mut states, &config, &shifts);
    assert_eq!(refresh.monitors, vec![1]);
    assert_eq!(levels(&states), vec![100.0, 50.0, 100.0]);
    let (mut fade, refresh) = begin(settlement.refreshed(&mut states, &config, &successes(&refresh)));
    assert_eq!(refresh.monitors, vec![0]);
    assert!(refresh.auto_remove_displays);
    fade.begun(&mut states, &vec![CommandOutcome::WaitFailed("oops".to_string())]);
    for _ in 0..9 {
        fade.tick();
    }
    fade.finish(&mut states, &config);
    let (reply, _) = fade.finished(&mut states, &vec![]);
    assert_eq!(
        reply.response.messages,
        vec!["B-2: 50", "Error refreshing brightness: oops", "A-1: 50"]
    );
    assert_eq!(reply.response.exit_status, ExitStatus::Failure);
    assert_eq!(levels(&states), vec![50.0, 50.0, 100.0]);
}

#[test]
fn failures_during_a_fade_are_reported() {
    let config = DaemonOptions::default();
    let mut states = states();
    let mut fade = start_fade(&mut states, &config, input(Some(BrightnessChange::SetTo(10)), None, named("A-1")));
    advance(&fade, &mut states, &config);
    fade.stepped(&vec![CommandOutcome::NotStarted("no xrandr".to_string())]);
    for _ in 0..9 {
        fade.tick();
    }
    fade.finish(&mut states, &config);
    let (reply, _) = fade.finished(&mut states, &vec![CommandOutcome::NotStarted("still none".to_string())]);
    assert_eq!(
        reply.response.messages,
        vec![
            "Failed to set brightness during fade: no xrandr",
            "Failed to set brightness during fade: still none",
            "A-1: 10",
        ]
    );
}

#[test]
fn a_request_waits_for_the_end_of_the_fade() {
    let config = DaemonOptions::default();
    let mut states = states();
    let fade = start_fade(&mut states, &config, input(Some(BrightnessChange::SetTo(10)), None, None));
    let fade = match fade.receive(&mut states) {
        Heard::Nothing(fade) => fade,
        _ => panic!("something has arrived"),
    };
    let later = task(input(Some(BrightnessChange::SetTo(90)), Some(false), named("B-2")), 6);
    assert!(matches!(later.next(&mut states, &config), Turn::HandedOver { to: 1 }));
    let again = task(input(Some(BrightnessChange::SetTo(95)), Some(false), named("B-2")), 7);
    assert!(matches!(again.next(&mut states, &config), Turn::HandedOver { to: 1 }));
    let fade = match fade.receive(&mut states) {
        Heard::Queued(fade) => fade,
        _ => panic!("nothing has arrived"),
    };
    assert_eq!(fade.inputs.len(), 1);
    let fade = match fade.receive(&mut states) {
        Heard::Queued(fade) => fade,
        _ => panic!("the second request is not heard"),
    };
    assert_eq!(fade.inputs.len(), 2);
    let mut fade = match fade.receive(&mut states) {
        Heard::Nothing(fade) => fade,
        _ => panic!("something else has arrived"),
    };
    for _ in 0..9 {
        fade.tick();
    }
    fade.finish(&mut states, &config);
    let (_, task) = fade.finished(&mut states, &vec![]);
    let next = measurement(task.next(&mut states, &config));
    assert_eq!(next.holder.socket, 6);
    assert_eq!(next.changes, vec![Change { index: 1, start: level(10.0), target: 90 }]);
    assert_eq!(held(&states), vec![false, true, false]);
    assert_eq!(states.available_adapter_list[1].brightness_state.brightness.write_mutex.len(), 0);
    assert_eq!(next.inputs.len(), 1);
    assert_eq!(next.inputs[0].socket_message_holder.socket, 7);
}

#[test]
fn a_fade_is_cut_short_by_a_later_request() {
    let config = DaemonOptions::default();
    let mut states = states();
    let fade = start_fade(&mut states, &config, input(Some(BrightnessChange::SetTo(40)), None, named("A-1")));
    let later = task(input(Some(BrightnessChange::SetTo(90)), Some(false), named("A-1")), 6);
    assert!(matches!(later.next(&mut states, &config), Turn::HandedOver { to: 0 }));
    let fade = match fade.receive(&mut states) {
        Heard::Queued(fade) => fade,
        _ => panic!("nothing has arrived"),
    };
    let mut stop = input(None, None, named("A-1"));
    stop.terminate_fade = true;
    assert!(matches!(task(stop, 7).next(&mut states, &config), Turn::HandedOver { to: 0 }));
    let (reply, task) = match fade.receive(&mut states) {
        Heard::Interrupted { reply, task } => (reply, task),
        _ => panic!("the fade goes on"),
    };
    assert_eq!(reply.socket, 5);
    let sockets: Vec<u64> = task.inputs.iter().map(|request| request.socket_message_holder.socket).collect();
    assert_eq!(sockets, vec![6, 7]);
    assert!(!states.available_adapter_list[0].brightness_state.is_fading);
}

#[test]
fn requests_that_wait_at_held_monitors_are_taken_up() {
    let config = DaemonOptions::default();
    let mut states = states();
    let first = task(input(Some(BrightnessChange::SetTo(90)), Some(false), None), 1);
    let first = measurement(first.next(&mut states, &config));
    for (socket, name) in [(2, "B-2"), (3, "A-1"), (4, "A-1")] {
        let other = task(input(Some(BrightnessChange::Adjustment(-10)), Some(false), named(name)), socket);
        assert!(matches!(other.next(&mut states, &config), Turn::HandedOver { .. }));
    }
    let changed = shifts(&first);
    let (settlement, refresh) = first.measured(&mut states, &config, &changed);
    let (reply, mut task) = outcome(settlement.refreshed(&mut states, &config, &successes(&refresh)));
    assert_eq!(reply.socket, 1);
    assert!(task.inputs.is_empty());
    let mut answered = Vec::new();
    loop {
        assert!(task.is_ready(&states, &config));
        let next = match task.next(&mut states, &config) {
            Turn::Finished => break,
            turn => measurement(turn),
        };
        let changed = shifts(&next);
        let (settlement, refresh) = next.measured(&mut states, &config, &changed);
        let (reply, rest) = outcome(settlement.refreshed(&mut states, &config, &successes(&refresh)));
        answered.push((reply.socket, reply.response.messages));
        task = rest;
    }
    assert_eq!(
        answered,
        vec![
            (3, vec!["A-1: 80".to_string()]),
            (4, vec!["A-1: 70".to_string()]),
            (2, vec!["B-2: 80".to_string()]),
        ]
    );
    assert_eq!(levels(&states), vec![70.0, 80.0, 100.0]);
    assert_eq!(held(&states), vec![false, false, false]);
    for state in &states.available_adapter_list {
        assert!(state.brightness_state.brightness.write_mutex.is_empty());
    }
}

#[test]
fn requests_wait_for_the_missing_active_monitor_too() {
    let config = DaemonOptions::default();
    let mut states = states();
    assert!(states.try_hold(1));
    states.active_monitor = 7;
    states.forward(
        1,
        ForwardedBrightnessInput::new_unprocessed(
            input(Some(BrightnessChange::SetTo(50)), None, Some(MonitorOverride::Active)),
            SocketMessageHolder::new(3),
        ),
    );
    let task = BrightnessTask { inputs: Default::default(), held: vec![1] };
    assert!(!task.is_ready(&states, &config));
    states.active_monitor = 0;
    assert!(task.is_ready(&states, &config));
    let next = measurement(task.next(&mut states, &config));
    assert_eq!(next.holder.socket, 3);
    assert_eq!(held(&states), vec![true, false, false]);
}

#[test]
fn a_fade_is_cut_short() {
    let config = DaemonOptions::default();
    let mut states = states();
    let mut fade = start_fade(&mut states, &config, input(Some(BrightnessChange::SetTo(40)), None, None));
    advance(&fade, &mut states, &config);
    fade.stepped(&vec![]);
    fade.tick();
    assert_eq!(levels(&states), vec![94.0, 94.0, 100.0]);
    let mut stop = input(None, None, None);
    stop.terminate_fade = true;
    assert!(matches!(task(stop, 8).next(&mut states, &config), Turn::HandedOver { to: 0 }));
    let (reply, task) = match fade.receive(&mut states) {
        Heard::Interrupted { reply, task } => (reply, task),
        _ => panic!("the fade goes on"),
    };
    assert_eq!(reply.socket, 5);
    assert_eq!(reply.response.exit_status, ExitStatus::Success);
    assert!(reply.response.messages.is_empty());
    assert_eq!(levels(&states), vec![94.0, 94.0, 100.0]);
    assert!(!states.available_adapter_list[0].brightness_state.is_fading);
    assert_eq!(task.held, vec![0, 1]);
    let next = measurement(task.next(&mut states, &config));
    assert_eq!(next.holder.socket, 8);
    assert_eq!(next.changes[0].target, 94);
    let shifts = shifts(&next);
    let (settlement, refresh) = next.measured(&mut states, &config, &shifts);
    let (reply, task) = outcome(settlement.refreshed(&mut states, &config, &successes(&refresh)));
    assert_eq!(reply.response.messages, vec!["A-1: 94", "B-2: 94"]);
    assert!(matches!(task.next(&mut states, &config), Turn::Finished));
}

#[test]
fn a_fade_is_replaced_by_another_change() {
    let config = DaemonOptions::default();
    let mut states = states();
    let mut fade = start_fade(&mut states, &config, input(Some(BrightnessChange::SetTo(40)), None, None));
    for _ in 0..3 {
        advance(&fade, &mut states, &config);
        fade.stepped(&vec![]);
        fade.tick();
    }
    assert_eq!(levels(&states), vec![82.0, 82.0, 100.0]);
    let mut replace = input(Some(BrightnessChange::Adjustment(10)), None, named("B-2"));
    replace.terminate_fade = true;
    assert!(matches!(task(replace, 8).next(&mut states, &config), Turn::HandedOver { to: 1 }));
    let task = match fade.receive(&mut states) {
        Heard::Interrupted { task, .. } => task,
        _ => panic!("the fade goes on"),
    };
    let next = measurement(task.next(&mut states, &config));
    assert_eq!(held(&states), vec![false, true, false]);
    let shifts = shifts(&next);
    let (settlement, refresh) = next.measured(&mut states, &config, &shifts);
    let (reply, _) = outcome(settlement.refreshed(&mut states, &config, &successes(&refresh)));
    assert_eq!(reply.response.messages, vec!["B-2: 92"]);
    assert_eq!(levels(&states), vec![82.0, 92.0, 100.0]);
}

#[test]
fn a_task_leaves_the_monitors_of_another_alone() {
    let config = DaemonOptions::default();
    let mut states = states();
    let fade = start_fade(&mut states, &config, input(Some(BrightnessChange::SetTo(40)), None, named("A-1")));
    advance(&fade, &mut states, &config);
    let other = measurement(
        task(input(Some(BrightnessChange::SetTo(95)), None, named("B-2")), 6).next(&mut states, &config),
    );
    let shifts = shifts(&other);
    let (settlement, refresh) = other.measured(&mut states, &config, &shifts);
    let (_, task) = outcome(settlement.refreshed(&mut states, &config, &successes(&refresh)));
    assert!(matches!(task.next(&mut states, &config), Turn::Finished));
    assert_eq!(levels(&states), vec![94.0, 95.0, 100.0]);
    assert_eq!(held(&states), vec![true, false, false]);
    assert!(states.available_adapter_list[0].brightness_state.is_fading);
    assert_eq!(fade.steps_left, 9);
}
