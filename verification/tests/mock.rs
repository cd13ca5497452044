use nosignal::backend::{ApplyMode, TopologyEvent};
use nosignal::error::BackendError;
use nosignal::fixtures::desk_with_tv;
use nosignal::layout::normalize;
use nosignal::mock::MockBackend;
use nosignal::topology::LayoutPlan;

#[test]
fn disable_tv_and_restore_exact_layout() {
    let mut backend = MockBackend::new(desk_with_tv());

    // Disable the TV.
    let topo = backend.snapshot().unwrap();
    let remembered = topo.find_connector("HDMI-A-1").unwrap().clone();
    let mut plan = LayoutPlan::from_topology(&topo);
    plan.set_enabled("HDMI-A-1", false);
    normalize(&mut plan);
    backend.apply(&plan, ApplyMode::Persistent).unwrap();

    let now = backend.topology();
    assert!(!now.find_connector("HDMI-A-1").unwrap().enabled);
    assert_eq!(now.enabled_count(), 1);

    // Re-enable with the remembered config.
    let topo = backend.snapshot().unwrap();
    let mut plan = LayoutPlan::from_topology(&topo);
    {
        let tv = plan.find_connector_mut("HDMI-A-1").unwrap();
        tv.enabled = true;
        tv.mode = remembered.mode;
        tv.position = remembered.position;
    }
    normalize(&mut plan);
    backend.apply(&plan, ApplyMode::Persistent).unwrap();

    let now = backend.topology();
    let tv = now.find_connector("HDMI-A-1").unwrap();
    assert!(tv.enabled);
    assert_eq!(tv.position, (3840, 0));
    assert_eq!(tv.mode, remembered.mode);
}

#[test]
fn stale_serial_is_rejected() {
    let mut backend = MockBackend::new(desk_with_tv());
    let topo = backend.snapshot().unwrap();
    let mut plan = LayoutPlan::from_topology(&topo);
    plan.set_enabled("HDMI-A-1", false);
    normalize(&mut plan);

    // Out-of-band change invalidates the plan.
    backend.simulate_change(topo.outputs);
    let err = backend.apply(&plan, ApplyMode::Temporary).unwrap_err();
    assert!(matches!(err, BackendError::StaleSerial));

    // Re-snapshot and retry succeeds.
    let topo = backend.snapshot().unwrap();
    let mut plan = LayoutPlan::from_topology(&topo);
    plan.set_enabled("HDMI-A-1", false);
    normalize(&mut plan);
    backend.apply(&plan, ApplyMode::Temporary).unwrap();
}

#[test]
fn events_fire_on_apply_and_hotplug() {
    let mut backend = MockBackend::new(desk_with_tv());

    backend.simulate_disconnect("HDMI-A-1");
    assert_eq!(backend.take_events(), vec![TopologyEvent::Changed]);

    let topo = backend.snapshot().unwrap();
    let plan = LayoutPlan::from_topology(&topo);
    backend.apply(&plan, ApplyMode::Temporary).unwrap();
    assert_eq!(backend.take_events(), vec![TopologyEvent::Changed]);
}

#[test]
fn verify_mode_validates_without_mutating() {
    let mut backend = MockBackend::new(desk_with_tv());
    let topo = backend.snapshot().unwrap();
    let mut plan = LayoutPlan::from_topology(&topo);
    plan.set_enabled("HDMI-A-1", false);
    normalize(&mut plan);
    backend.apply(&plan, ApplyMode::Verify).unwrap();
    assert!(backend.topology().find_connector("HDMI-A-1").unwrap().enabled);
    assert_eq!(backend.apply_count(), 0);
}

#[test]
fn incomplete_plans_are_rejected() {
    let mut backend = MockBackend::new(desk_with_tv());
    let topo = backend.snapshot().unwrap();
    let mut plan = LayoutPlan::from_topology(&topo);
    plan.outputs.remove(1);
    let err = backend.apply(&plan, ApplyMode::Temporary).unwrap_err();
    assert!(matches!(err, BackendError::InvalidLayout(_)));
}

#[test]
fn a_forced_failure_hits_one_apply() {
    let mut backend = MockBackend::new(desk_with_tv());
    let plan = LayoutPlan::from_topology(&backend.topology());
    backend.fail_next_apply();
    let err = backend.apply(&plan, ApplyMode::Temporary).unwrap_err();
    assert!(matches!(err, BackendError::Server(_)));
    backend.apply(&plan, ApplyMode::Temporary).unwrap();
    assert_eq!(backend.apply_count(), 1);
}

#[test]
fn persistence_can_be_left_out() {
    let backend = MockBackend::new(desk_with_tv());
    assert!(backend.capabilities().native_persistence);
    assert_eq!(backend.name(), "mock");
    let backend = backend.without_native_persistence();
    assert!(!backend.capabilities().native_persistence);
    assert!(backend.capabilities().events);
}
