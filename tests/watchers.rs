use ambilight::watchers::{monitor_title, plan_previews, reconcile_ports, selectable_ports, PortEntry, RunningPreview};

fn names(v: &[&str]) -> Vec<String> {
    v.iter().map(|s| s.to_string()).collect()
}

#[test]
fn title_joins_name_and_device() {
    assert_eq!(monitor_title("DISPLAY1", "Generic PnP Monitor"), "DISPLAY1 (Generic PnP Monitor)");
    assert_eq!(monitor_title("", ""), " ()");
}

#[test]
fn unknown_ports_are_not_offered() {
    let ports = vec![
        PortEntry { name: "COM1".to_string(), known: true },
        PortEntry { name: "COM2".to_string(), known: false },
        PortEntry { name: "COM3".to_string(), known: true },
    ];
    assert_eq!(selectable_ports(&ports), names(&["COM1", "COM3"]));
}

#[test]
fn same_ports_need_no_update() {
    let offered = names(&["COM1", "COM3"]);
    assert!(reconcile_ports(&offered, &names(&["COM1", "COM3"]), &Some("COM3".to_string())).is_none());
    assert!(reconcile_ports(&vec![], &vec![], &None).is_none());
}

#[test]
fn present_selection_is_kept() {
    let u = reconcile_ports(&names(&["COM1"]), &names(&["COM1", "COM4"]), &Some("COM4".to_string())).unwrap();
    assert_eq!(u.ports, names(&["COM1", "COM4"]));
    assert_eq!(u.selected, Some("COM4".to_string()));
}

#[test]
fn vanished_selection_falls_back_to_first() {
    let u = reconcile_ports(&names(&["COM1", "COM4"]), &names(&["COM5", "COM1"]), &Some("COM4".to_string())).unwrap();
    assert_eq!(u.ports, names(&["COM5", "COM1"]));
    assert_eq!(u.selected, Some("COM5".to_string()));
    let none = reconcile_ports(&names(&["COM1"]), &names(&["COM2"]), &None).unwrap();
    assert_eq!(none.selected, Some("COM2".to_string()));
}

#[test]
fn no_ports_left_selects_none() {
    let u = reconcile_ports(&names(&["COM1"]), &vec![], &Some("COM1".to_string())).unwrap();
    assert!(u.ports.is_empty());
    assert_eq!(u.selected, None);
}

fn live(monitor: u64) -> RunningPreview {
    RunningPreview { monitor, finished: false }
}

#[test]
fn unchanged_previews_keep_running() {
    let running = vec![live(11), live(22)];
    let plan = plan_previews(&running, &vec![11, 22, 33], false);
    assert_eq!(plan.stop, vec![false, false]);
    assert_eq!(plan.start, vec![false, false, true]);
}

#[test]
fn moved_monitor_keeps_its_preview() {
    // previews for monitors 1 and 2; monitor 1 is unplugged, 2 moves to the front
    let running = vec![live(1), live(2)];
    let plan = plan_previews(&running, &vec![2], false);
    assert_eq!(plan.stop, vec![true, false]);
    assert_eq!(plan.start, vec![false]);
}

#[test]
fn reordered_monitors_restart_nothing() {
    let running = vec![live(1), live(2), live(3)];
    let plan = plan_previews(&running, &vec![3, 1, 2], false);
    assert_eq!(plan.stop, vec![false, false, false]);
    assert_eq!(plan.start, vec![false, false, false]);
}

#[test]
fn vanished_and_finished_previews_restart_or_stop() {
    let running = vec![RunningPreview { monitor: 11, finished: true }, live(22), live(44)];
    let plan = plan_previews(&running, &vec![11, 99, 44], false);
    assert_eq!(plan.stop, vec![true, true, false]);
    assert_eq!(plan.start, vec![true, true, false]);
}

#[test]
fn listed_twice_starts_once() {
    let plan = plan_previews(&vec![], &vec![5, 5], false);
    assert_eq!(plan.start, vec![true, false]);
}

#[test]
fn primary_capture_suspends_previews() {
    let running = vec![live(11), live(22)];
    let plan = plan_previews(&running, &vec![11, 22, 33], true);
    assert_eq!(plan.stop, vec![true, true]);
    assert_eq!(plan.start, vec![false, false, false]);
}
