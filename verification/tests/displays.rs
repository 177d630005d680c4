use brightness_control::daemon::config::runtime::CachedState;
use brightness_control::daemon::engine::display::{
    CollectiveMonitorState, CollectiveMonitorStateInternal,
};
use brightness_control::daemon::engine::monitor::{get_available_displays, Monitor, MonitorMetadata};
use brightness_control::daemon::util::tables::BrightnessStateInternal;
use brightness_control::level::Level;
use brightness_control::shared::MonitorOverride;
use fnv::FnvHashMap;

const EDP: &str = "eDP-1 connected primary 1920x1080+0+0 (normal left inverted right x axis y axis) 344mm x 193mm";
const HDMI: &str = "HDMI-1 connected 1280x1024+1920+28 (normal left inverted right x axis y axis) 338mm x 270mm";
const DP_OFF: &str = "DP-2 disconnected (normal left inverted right x axis y axis)";

fn level(value: f64) -> Level {
    Level { bits: value.to_bits() }
}

fn output(lines: &[&str]) -> Vec<u8> {
    let mut text = String::from("Screen 0: minimum 320 x 200, current 3200 x 1080, maximum 16384 x 16384\n");
    for line in lines {
        text.push_str(line);
        text.push('\n');
        text.push_str("   1920x1080     60.00*+\n");
    }
    text.into_bytes()
}

fn states(lines: &[&str]) -> CollectiveMonitorStateInternal {
    CollectiveMonitorStateInternal::new(0, FnvHashMap::default(), get_available_displays(&output(lines)))
}

#[test]
fn connected_display_is_read() {
    let (monitor, connected) = Monitor::new(EDP).unwrap();
    assert_eq!(monitor.name(), "eDP-1");
    assert!(connected);
    assert_eq!(
        monitor.monitor_metadata,
        Some(MonitorMetadata { width: 1920, height: 1080, x_offset: 0, y_offset: 0 })
    );
    let (monitor, connected) = Monitor::new(HDMI).unwrap();
    assert_eq!(monitor.name(), "HDMI-1");
    assert!(connected);
    assert_eq!(
        monitor.monitor_metadata,
        Some(MonitorMetadata { width: 1280, height: 1024, x_offset: 1920, y_offset: 28 })
    );
}

#[test]
fn disconnected_display_is_read() {
    let (monitor, connected) = Monitor::new(DP_OFF).unwrap();
    assert_eq!(monitor.name(), "DP-2");
    assert!(!connected);
    assert_eq!(monitor.monitor_metadata, None);
}

#[test]
fn other_lines_are_no_displays() {
    assert!(Monitor::new("Screen 0: minimum 320 x 200").is_none());
    assert!(Monitor::new("   1920x1080     60.00*+").is_none());
    assert!(Monitor::new("").is_none());
    assert!(Monitor::new("eDP-1 connected").is_none());
    assert!(Monitor::new("eDP1 connected 1x1+0+0").is_none());
    assert!(Monitor::new(" eDP-1 connected 1x1+0+0").is_none());
    assert!(Monitor::new("eDP-1-2 connected 1x1+0+0").is_none());
    assert!(Monitor::new("\u{e9}-1 disconnected").is_none());
    assert!(Monitor::new("-1 disconnected").is_none());
    assert!(Monitor::new("eDP- disconnected").is_none());
    assert!(Monitor::new("eDP-1  disconnected").is_none());
    assert_eq!(Monitor::new("eDP-10 disconnectedly").unwrap().0.name(), "eDP-10");
}

#[test]
fn numbers_beyond_32_bits_are_refused() {
    assert!(Monitor::new("A-1 connected 4294967295x1+0+0").is_some());
    assert!(Monitor::new("A-1 connected 4294967296x1+0+0").is_none());
    assert!(Monitor::new("A-1 connected 1x1+0+99999999999").is_none());
}

#[test]
fn groups_are_turned_into_a_monitor() {
    let text = |s: &str| Some(s.to_string());
    let groups = vec![text("A-1 disconnected"), text("A-1"), text("disconnected"), None, None, None, None];
    let (monitor, connected) = Monitor::from_groups(&groups).unwrap();
    assert_eq!(monitor.name(), "A-1");
    assert!(!connected);
    let groups = vec![
        text(""), text("B-2"), text("connected 1x2+3+4"), text("1"), text("2"), text("3"), text("4"),
    ];
    let (monitor, connected) = Monitor::from_groups(&groups).unwrap();
    assert!(connected);
    assert_eq!(
        monitor.monitor_metadata,
        Some(MonitorMetadata { width: 1, height: 2, x_offset: 3, y_offset: 4 })
    );
}

#[test]
fn metadata_is_replaced() {
    let mut monitor = Monitor::new(EDP).unwrap().0;
    monitor.update_metadata(None);
    assert_eq!(monitor.monitor_metadata, None);
    assert_eq!(monitor.name(), "eDP-1");
}

#[test]
fn output_of_xrandr_is_read() {
    let displays = get_available_displays(&output(&[EDP, DP_OFF, HDMI]));
    let names: Vec<(String, bool)> =
        displays.iter().map(|(monitor, connected)| (monitor.name().clone(), *connected)).collect();
    assert_eq!(
        names,
        vec![("eDP-1".to_string(), true), ("DP-2".to_string(), false), ("HDMI-1".to_string(), true)]
    );
}

#[test]
fn lines_that_are_no_text_are_skipped() {
    let mut bytes = vec![0xff, 0xfe, b'\n'];
    bytes.extend_from_slice(EDP.as_bytes());
    let displays = get_available_displays(&bytes);
    assert_eq!(displays.len(), 1);
    assert_eq!(displays[0].0.name(), "eDP-1");
    assert!(get_available_displays(&vec![]).is_empty());
}

#[test]
fn new_monitors_are_at_full_brightness() {
    let states = states(&[EDP, DP_OFF]);
    assert_eq!(states.available_adapter_list.len(), 2);
    for state in &states.available_adapter_list {
        assert_eq!(state.get_brightness_state().get(), level(100.0));
        assert!(!state.get_brightness_state().nightlight.get());
        assert!(!state.get_brightness_state().is_fading);
    }
    assert!(states.is_monitor_index_enabled(0));
    assert!(!states.is_monitor_index_enabled(1));
    assert!(!states.is_monitor_index_enabled(7));
}

#[test]
fn names_are_found_in_any_case() {
    let states = states(&[EDP, HDMI]);
    assert_eq!(states.get_monitor_index_by_name("edp-1"), Some(&0));
    assert_eq!(states.get_monitor_index_by_name("EDP-1"), Some(&0));
    assert_eq!(states.get_monitor_index_by_name("hdmi-1"), Some(&1));
    assert_eq!(states.get_monitor_index_by_name("DP-9"), None);
    assert_eq!(states.get_monitor_state_by_name("hDMI-1").unwrap().get_monitor_name(), "HDMI-1");
    assert!(states.get_monitor_state_by_name("").is_none());
    assert!(states.get_monitor_state_by_index(2).is_none());
    assert_eq!(states.get_monitor_state_by_index(1).unwrap().get_monitor_name(), "HDMI-1");
}

#[test]
fn choices_of_monitors() {
    let states = states(&[EDP, DP_OFF, HDMI]);
    let named = |name: &str| MonitorOverride::Specified { adapter_name: name.to_string() };
    assert_eq!(states.get_monitor_override_indices(&MonitorOverride::All), vec![0, 1, 2]);
    assert_eq!(states.get_monitor_override_indices(&MonitorOverride::Enabled), vec![0, 2]);
    assert_eq!(states.get_monitor_override_indices(&MonitorOverride::Active), vec![0]);
    assert_eq!(states.get_monitor_override_indices(&named("hdmi-1")), vec![2]);
    assert_eq!(states.get_monitor_override_indices(&named("VGA-1")), Vec::<usize>::new());
    assert!(states.is_monitor_name_enabled("HDMI-1"));
    assert!(!states.is_monitor_name_enabled("DP-2"));
    assert!(!states.is_monitor_name_enabled("VGA-1"));
}

#[test]
fn active_monitor_by_name() {
    let mut states = states(&[EDP, DP_OFF, HDMI]);
    assert_eq!(states.set_active_monitor_by_name("hdmi-1"), Ok(()));
    assert_eq!(*states.get_active_monitor_index(), 2);
    assert_eq!(states.set_active_monitor_by_name("DP-2"), Err("Requested monitor is disabled!"));
    assert_eq!(states.set_active_monitor_by_name("VGA-1"), Err("Requested monitor does not exist!"));
    assert_eq!(*states.get_active_monitor_index(), 2);
}

#[test]
fn active_monitor_by_index() {
    let mut states = states(&[EDP, DP_OFF, HDMI]);
    assert_eq!(states.set_active_monitor_by_index(2), Ok(()));
    assert_eq!(*states.get_active_monitor_index(), 2);
    assert_eq!(states.set_active_monitor_by_index(1), Err("Specified monitor is not enabled!"));
    assert_eq!(states.set_active_monitor_by_index(3), Err("Specified index does not exist!"));
    assert_eq!(*states.get_active_monitor_index(), 2);
}

#[test]
fn removed_monitors_are_no_longer_enabled() {
    let mut states = states(&[EDP, DP_OFF, HDMI]);
    states.remove_enabled_monitor_by_index(&0);
    assert_eq!(states.get_monitor_override_indices(&MonitorOverride::Enabled), vec![2]);
    states.remove_enabled_monitor_by_name("hdmi-1");
    assert_eq!(states.get_monitor_override_indices(&MonitorOverride::Enabled), Vec::<usize>::new());
    states.remove_enabled_monitor_by_name("VGA-1");
    assert_eq!(states.get_monitor_override_indices(&MonitorOverride::All), vec![0, 1, 2]);
}

#[test]
fn known_monitors_keep_brightness_and_position() {
    let mut states = states(&[EDP, HDMI]);
    assert!(states.try_hold(1));
    states.set_level(1, level(35.0));
    states.release(1);
    states.state_overwrite(get_available_displays(&output(&[
        DP_OFF,
        "HDMI-1 connected 800x600+5+6 (normal)",
        "eDP-1 disconnected (normal)",
    ])));
    assert_eq!(states.available_adapter_list.len(), 3);
    assert_eq!(states.get_monitor_index_by_name("HDMI-1"), Some(&1));
    assert_eq!(states.get_monitor_index_by_name("DP-2"), Some(&2));
    assert_eq!(states.available_adapter_list[1].get_brightness_state().get(), level(35.0));
    assert_eq!(
        states.available_adapter_list[1].monitor_data.monitor_metadata,
        Some(MonitorMetadata { width: 800, height: 600, x_offset: 5, y_offset: 6 })
    );
    assert_eq!(states.available_adapter_list[0].monitor_data.monitor_metadata, None);
    assert_eq!(states.get_monitor_override_indices(&MonitorOverride::Enabled), vec![1]);
}

#[test]
fn only_reported_names_are_found() {
    let mut states = states(&[EDP, HDMI]);
    assert!(states.try_hold(1));
    states.set_level(1, level(35.0));
    states.release(1);
    states.state_overwrite(get_available_displays(&output(&[EDP])));
    let hdmi = MonitorOverride::Specified { adapter_name: "HDMI-1".to_string() };
    assert_eq!(states.get_monitor_index_by_name("HDMI-1"), None);
    assert!(states.get_monitor_state_by_name("HDMI-1").is_none());
    assert_eq!(states.get_monitor_override_indices(&hdmi), Vec::<usize>::new());
    assert_eq!(states.set_active_monitor_by_name("HDMI-1"), Err("Requested monitor does not exist!"));
    assert_eq!(states.get_monitor_override_indices(&MonitorOverride::All), vec![0, 1]);
    states.state_overwrite(get_available_displays(&output(&[HDMI, EDP])));
    assert_eq!(states.get_monitor_index_by_name("hdmi-1"), Some(&1));
    assert_eq!(states.available_adapter_list[1].get_brightness_state().get(), level(35.0));
    assert_eq!(states.set_active_monitor_by_name("HDMI-1"), Ok(()));
}

#[test]
fn reporting_again_changes_nothing() {
    let lines = [EDP, DP_OFF, HDMI];
    let mut states = states(&lines);
    states.state_overwrite(get_available_displays(&output(&lines)));
    states.state_overwrite(get_available_displays(&output(&lines)));
    assert_eq!(states.available_adapter_list.len(), 3);
    assert_eq!(states.get_monitor_override_indices(&MonitorOverride::Enabled), vec![0, 2]);
}

#[test]
fn what_is_held_stays_held() {
    let mut states = states(&[EDP, HDMI]);
    assert!(states.try_hold(1));
    states.refresh_displays(Ok(output(&[DP_OFF, EDP]))).unwrap();
    states.set_active_monitor_by_index(0).unwrap();
    states.remove_enabled_monitor_by_index(&1);
    assert!(states.try_hold_nightlight(1));
    states.flip_nightlight(1);
    assert!(!states.try_hold(1));
    assert!(states.try_hold(0));
    states.release(1);
    assert!(states.try_hold(1));
}

#[test]
fn displays_that_cannot_be_found_out_change_nothing() {
    let mut states = states(&[EDP, DP_OFF]);
    assert_eq!(states.refresh_displays(Err("no xrandr".to_string())), Err("no xrandr".to_string()));
    assert_eq!(states.iter_all_monitor_indices(), vec![0, 1]);
    assert_eq!(states.iter_enabled_monitor_indices(), vec![0]);
}

#[test]
fn monitors_are_listed() {
    let states = states(&[EDP, DP_OFF, HDMI]);
    let all: Vec<&String> = states.iter_all_monitor_states().iter().map(|state| state.get_monitor_name()).collect();
    assert_eq!(all, vec!["eDP-1", "DP-2", "HDMI-1"]);
    let enabled: Vec<&String> =
        states.iter_enabled_monitor_states().into_iter().map(|state| state.get_monitor_name()).collect();
    assert_eq!(enabled, vec!["eDP-1", "HDMI-1"]);
}

#[test]
fn adapters_that_differ_in_case_are_one() {
    let states = states(&["eDP-1 disconnected (normal)", "EDP-1 connected 1x1+0+0"]);
    assert_eq!(states.available_adapter_list.len(), 1);
    assert_eq!(states.available_adapter_list[0].get_monitor_name(), "eDP-1");
    assert!(states.is_monitor_index_enabled(0));
}

#[test]
fn remembered_lights_are_restored() {
    let mut remembered = FnvHashMap::default();
    remembered.insert(
        "hdmi-1".to_string(),
        BrightnessStateInternal { brightness: level(42.5), nightlight: true },
    );
    remembered.insert(
        "VGA-1".to_string(),
        BrightnessStateInternal { brightness: level(1.0), nightlight: true },
    );
    let states = CollectiveMonitorStateInternal::new(1, remembered, get_available_displays(&output(&[EDP, HDMI])));
    assert_eq!(*states.get_active_monitor_index(), 1);
    assert_eq!(states.available_adapter_list.len(), 2);
    assert_eq!(states.available_adapter_list[0].get_brightness_state().get(), level(100.0));
    assert_eq!(states.available_adapter_list[1].get_brightness_state().get(), level(42.5));
    assert!(states.available_adapter_list[1].get_brightness_state().nightlight.get());
}

#[test]
fn saved_lights_survive_a_restart() {
    let mut before = states(&[EDP, DP_OFF, HDMI]);
    assert!(before.try_hold(2));
    before.set_level(2, level(12.25));
    before.release(2);
    assert!(before.try_hold_nightlight(0));
    assert!(before.flip_nightlight(0));
    before.release_nightlight(0);
    before.set_active_monitor_by_index(2).unwrap();
    let saved = before.cached_state();
    assert!(saved.validate());
    assert_eq!(saved.brightness_states.len(), 3);
    assert_eq!(saved.brightness_states["HDMI-1"].brightness, level(12.25));
    let state = CachedState::or_default(Some(saved));
    let after = CollectiveMonitorStateInternal::new(
        state.active_monitor,
        state.brightness_states,
        get_available_displays(&output(&[HDMI, EDP])),
    );
    assert_eq!(*after.get_active_monitor_index(), 2);
    let hdmi = after.get_monitor_state_by_name("HDMI-1").unwrap();
    assert_eq!(hdmi.get_brightness_state().get(), level(12.25));
    assert!(!hdmi.get_brightness_state().nightlight.get());
    let edp = after.get_monitor_state_by_name("eDP-1").unwrap();
    assert_eq!(edp.get_brightness_state().get(), level(100.0));
    assert!(edp.get_brightness_state().nightlight.get());
}

#[test]
fn unsound_states_are_not_taken_over() {
    let mut cached = CachedState::default();
    assert!(cached.validate());
    assert_eq!(cached.active_monitor, 0);
    cached.active_monitor = 3;
    cached.brightness_states.insert(
        "A-1".to_string(),
        BrightnessStateInternal { brightness: level(100.0), nightlight: false },
    );
    assert!(cached.validate());
    for bad in [100.1, -0.5, f64::NAN, f64::INFINITY] {
        cached.brightness_states.insert(
            "B-1".to_string(),
            BrightnessStateInternal { brightness: level(bad), nightlight: false },
        );
        assert!(!cached.validate());
    }
    let state = CachedState::or_default(Some(cached));
    assert_eq!(state.active_monitor, 0);
    assert!(state.brightness_states.is_empty());
    assert!(CachedState::or_default(None).brightness_states.is_empty());
}

#[test]
fn names_and_states_are_shown() {
    let mut state = CollectiveMonitorState::new(2, FnvHashMap::default(), get_available_displays(&output(&[EDP, DP_OFF, HDMI])));
    let levels = vec!["100".to_string(), "50.5".to_string(), "7".to_string()];
    assert_eq!(state.get_formatted_display_names(None), "eDP-1 DP-2 HDMI-1");
    assert_eq!(state.get_formatted_display_names(Some(&MonitorOverride::Enabled)), "eDP-1 HDMI-1");
    assert_eq!(
        state.get_formatted_display_states(None, &levels),
        "eDP-1: 100\nDP-2: 50.5\nHDMI-1: 7"
    );
    assert_eq!(
        state.get_formatted_display_states_with_format(Some(&MonitorOverride::Active), &levels),
        "HDMI-1: 7"
    );
    let nobody = MonitorOverride::Specified { adapter_name: "VGA-1".to_string() };
    assert_eq!(state.get_formatted_display_states(Some(&nobody), &levels), "");
    state.write().remove_enabled_monitor_by_index(&0);
    assert!(!state.read().is_monitor_index_enabled(0));
}
