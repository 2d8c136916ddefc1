use guest_integrity::device::{
    ActivationRegister, Device, DeviceAction, DeviceError, DeviceEvent, DeviceInfo, DeviceState,
    SecureVolume, SecureVolumeDeviceHandler, DRIVER_SECURE_VOLUME_TYPE,
};

const HANDLER: SecureVolumeDeviceHandler = SecureVolumeDeviceHandler {};

fn device(source_driver: &str, annotation_key: &str, manifest_uri: &str) -> Device<u32> {
    Device {
        type_: DRIVER_SECURE_VOLUME_TYPE.to_string(),
        secure_volume: Some(SecureVolume {
            source_driver: source_driver.to_string(),
            annotation_key: annotation_key.to_string(),
            manifest_uri: manifest_uri.to_string(),
        }),
        rest: 17,
    }
}

fn info(cgroup_type: &str, guest_major: i64, guest_minor: i64) -> DeviceInfo {
    DeviceInfo { cgroup_type: cgroup_type.to_string(), guest_major, guest_minor }
}

fn resolved() -> DeviceEvent {
    DeviceEvent::SourceResolved(Ok(Some(info("b", 253, 1))))
}

fn activated(activation_id: &str, path: &str) -> DeviceEvent {
    DeviceEvent::Activated(Ok((activation_id.to_string(), path.to_string())))
}

/// Takes the events one after another; gives the last state and every action.
fn run(events: Vec<DeviceEvent>) -> (DeviceState<u32>, Vec<DeviceAction<u32>>) {
    let (mut state, action) = HANDLER.device_handler(device("blk", "key", "kbs:///a/b/c"));
    let mut actions = vec![action];
    for event in events {
        let (next, action) = HANDLER.continue_handling(state, event);
        state = next;
        actions.push(action);
    }
    (state, actions)
}

fn last(events: Vec<DeviceEvent>) -> DeviceAction<u32> {
    run(events).1.pop().unwrap()
}

#[test]
fn handler_is_for_secure_volumes() {
    assert_eq!(HANDLER.driver_types(), [DRIVER_SECURE_VOLUME_TYPE]);
}

#[test]
fn activated_block_device_is_attached() {
    let (state, actions) = run(vec![
        DeviceEvent::HandlerFound(true),
        resolved(),
        activated("id", "/dev/mapper/x"),
        DeviceEvent::Inspected(Ok(info("b", 252, 0))),
    ]);
    assert!(matches!(state, DeviceState::Closed));
    assert!(matches!(&actions[0], DeviceAction::FindHandler { driver } if driver == "blk"));
    match &actions[1] {
        DeviceAction::ResolveSource { source } => {
            assert_eq!(source.type_, "blk");
            assert!(source.secure_volume.is_none());
            assert_eq!(source.rest, 17);
        }
        _ => panic!("no source"),
    }
    assert!(matches!(
        &actions[2],
        DeviceAction::Activate { device_id, manifest_uri }
            if device_id == "253:1" && manifest_uri == "kbs:///a/b/c"
    ));
    assert!(matches!(&actions[3], DeviceAction::Inspect { path } if path == "/dev/mapper/x"));
    assert!(matches!(
        &actions[4],
        DeviceAction::Attach { activation_id, device }
            if activation_id == "id" && device.guest_major == 252 && device.guest_minor == 0
    ));
}

#[test]
fn configuration_is_checked() {
    let error = |device: Device<u32>| match HANDLER.device_handler(device) {
        (DeviceState::Closed, DeviceAction::Fail(error)) => error,
        _ => panic!("no failure"),
    };
    let mut unconfigured = device("blk", "key", "kbs:///a");
    unconfigured.secure_volume = None;
    assert!(matches!(error(unconfigured), DeviceError::MissingConfiguration));
    assert!(matches!(error(device("", "key", "kbs:///a")), DeviceError::InvalidSourceDriver));
    assert!(matches!(
        error(device(DRIVER_SECURE_VOLUME_TYPE, "", "")),
        DeviceError::InvalidSourceDriver
    ));
    assert!(matches!(error(device("blk", "", "kbs:///a")), DeviceError::IncompleteConfiguration));
    assert!(matches!(error(device("blk", "key", "")), DeviceError::IncompleteConfiguration));
}

#[test]
fn source_failures_are_told_apart() {
    let found = || DeviceEvent::HandlerFound(true);
    assert!(matches!(
        last(vec![DeviceEvent::HandlerFound(false)]),
        DeviceAction::Fail(DeviceError::UnsupportedSourceDriver { driver }) if driver == "blk"
    ));
    assert!(matches!(
        last(vec![found(), DeviceEvent::SourceResolved(Err("gone".to_string()))]),
        DeviceAction::Fail(DeviceError::SourceNotResolved { driver, reason })
            if driver == "blk" && reason == "gone"
    ));
    assert!(matches!(
        last(vec![found(), DeviceEvent::SourceResolved(Ok(None))]),
        DeviceAction::Fail(DeviceError::NoSourceDevice)
    ));
    assert!(matches!(
        last(vec![found(), DeviceEvent::SourceResolved(Ok(Some(info("c", 1, 2))))]),
        DeviceAction::Fail(DeviceError::SourceNotBlock)
    ));
    assert!(matches!(
        last(vec![found(), resolved(), DeviceEvent::Activated(Err("no".to_string()))]),
        DeviceAction::Fail(DeviceError::NotActivated { device_id, reason })
            if device_id == "253:1" && reason == "no"
    ));
}

#[test]
fn incomplete_activation_is_undone() {
    let start = || vec![DeviceEvent::HandlerFound(true), resolved()];
    let mut unnamed = start();
    unnamed.push(activated("", "/dev/mapper/x"));
    assert!(matches!(last(unnamed), DeviceAction::Fail(DeviceError::IncompleteActivation)));
    let mut pathless = start();
    pathless.push(activated("id", ""));
    pathless.push(DeviceEvent::Deactivated);
    let (_, actions) = run(pathless);
    assert!(matches!(
        &actions[3],
        DeviceAction::Deactivate { activation_id } if activation_id == "id"
    ));
    assert!(matches!(
        &actions[4],
        DeviceAction::Fail(DeviceError::IncompleteActivation)
    ));
}

#[test]
fn unusable_activated_device_is_undone() {
    let after = |event: DeviceEvent| {
        run(vec![
            DeviceEvent::HandlerFound(true),
            resolved(),
            activated("id", "/dev/mapper/x"),
            event,
            DeviceEvent::Deactivated,
        ])
        .1
    };
    let actions = after(DeviceEvent::Inspected(Ok(info("c", 1, 2))));
    assert!(matches!(
        &actions[4],
        DeviceAction::Deactivate { activation_id } if activation_id == "id"
    ));
    assert!(matches!(&actions[5], DeviceAction::Fail(DeviceError::MapperNotBlock)));
    let actions = after(DeviceEvent::Inspected(Err("missing".to_string())));
    assert!(matches!(
        &actions[4],
        DeviceAction::Deactivate { activation_id } if activation_id == "id"
    ));
    assert!(matches!(
        &actions[5],
        DeviceAction::Fail(DeviceError::NotInspected { path, reason })
            if path == "/dev/mapper/x" && reason == "missing"
    ));
    let actions = after(DeviceEvent::HandlerFound(true));
    assert!(matches!(
        &actions[4],
        DeviceAction::Deactivate { activation_id } if activation_id == "id"
    ));
    assert!(matches!(&actions[5], DeviceAction::Fail(DeviceError::OutOfOrder)));
}

#[test]
fn device_numbers_are_written_in_decimal() {
    assert_eq!(info("b", 0, 0).number(), "0:0");
    assert_eq!(info("b", -1, 10).number(), "-1:10");
    assert_eq!(
        info("b", i64::MIN, i64::MAX).number(),
        format!("{}:{}", i64::MIN, i64::MAX)
    );
}

#[test]
fn recording_only_adds() {
    let mut register = ActivationRegister::new();
    assert!(register.activations("c1").is_none());
    register.record("c1", "a".to_string());
    register.record("c2", "b".to_string());
    register.record("c1", "c".to_string());
    assert_eq!(register.activations("c1"), Some(&vec!["a".to_string(), "c".to_string()]));
    assert_eq!(register.activations("c2"), Some(&vec!["b".to_string()]));
    assert!(register.activations("c3").is_none());
}
