use uni_sync_curve::cli::Args;
use uni_sync_curve::config::ChannelMode;
use uni_sync_curve::control::{plan_set_fan_speed, ControlError};
use uni_sync_curve::device::{DeviceId, DeviceRegistry};

#[test]
fn unknown_device_is_an_error() {
    let reg: DeviceRegistry<u8> = DeviceRegistry::new();
    let id = DeviceId(0x0cf2, 0xa100, "Z9".to_string());
    match plan_set_fan_speed(&reg, &id, 0, ChannelMode::Manual, 40) {
        Err(e) => {
            assert_eq!(e.message(), "Device with given device id (0cf2, a100, Z9) not available");
            let ControlError::DeviceNotAvailable(got) = e;
            assert!(got.same_as(&id));
        }
        Ok(_) => panic!("expected an error"),
    }
}

#[test]
fn known_device_gets_its_reports() {
    let mut reg: DeviceRegistry<&str> = DeviceRegistry::new();
    reg.register(0x0cf2, 0xa103, Some("Q".to_string()), "/dev/hidraw3");
    let id = DeviceId(0x0cf2, 0xa103, "Q".to_string());
    let (path, reports) = plan_set_fan_speed(&reg, &id, 1, ChannelMode::Manual, 100).unwrap();
    assert_eq!(*path, "/dev/hidraw3");
    let plain: Vec<Vec<u8>> = reports.into_iter().map(|r| r.bytes).collect();
    assert_eq!(
        plain,
        vec![vec![224, 16, 97, 0, 0, 0, 0], vec![224, 16, 98, 0x20], vec![224, 33, 0, 100]]
    );
}

#[test]
fn config_path_defaults() {
    let args = Args { config_file: None, debug: false };
    assert_eq!(args.config_path(), "/etc/uni-sync-curve.json");
    let args = Args { config_file: Some("/tmp/x.json".to_string()), debug: true };
    assert_eq!(args.config_path(), "/tmp/x.json");
}
