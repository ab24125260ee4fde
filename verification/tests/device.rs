use uni_sync_curve::device::{is_supported_device, supported_device_id, DeviceId, DeviceRegistry};

#[test]
fn device_id_text_matches_format() {
    let id = DeviceId(0x0cf2, 0x7750, "TEST123".to_string());
    assert_eq!(id.to_string(), "(0cf2, 7750, TEST123)");
    assert_eq!(id.to_string(), format!("({:04x}, {:04x}, {})", id.0, id.1, id.2));
    let id = DeviceId(0xffff, 0x000a, "".to_string());
    assert_eq!(id.to_string(), format!("({:04x}, {:04x}, {})", id.0, id.1, id.2));
    assert_eq!(id.to_string(), "(ffff, 000a, )");
}

#[test]
fn supported_devices() {
    for p in [0x7750u16, 0xa100, 0xa101, 0xa102, 0xa103, 0xa104, 0xa105] {
        assert!(is_supported_device(0x0cf2, p));
        assert!(!is_supported_device(0x0cf3, p));
    }
    assert!(!is_supported_device(0x0cf2, 0xa106));
    assert!(!is_supported_device(0x0cf2, 0x7751));
}

#[test]
fn device_needs_a_serial() {
    assert!(supported_device_id(0x0cf2, 0xa101, None).is_none());
    let id = supported_device_id(0x0cf2, 0xa101, Some("S1".to_string())).unwrap();
    assert!(id.same_as(&DeviceId(0x0cf2, 0xa101, "S1".to_string())));
    assert!(supported_device_id(0x046d, 0xa101, Some("S1".to_string())).is_none());
}

#[test]
fn registry_finds_what_was_registered() {
    let mut reg: DeviceRegistry<&str> = DeviceRegistry::new();
    assert_eq!(reg.len(), 0);
    assert!(reg.register(0x0cf2, 0xa100, Some("X".to_string()), "path-x"));
    assert!(!reg.register(0x0cf2, 0xbeef, Some("Y".to_string()), "path-y"));
    assert!(!reg.register(0x0cf2, 0xa100, None, "path-z"));
    assert!(reg.register(0x0cf2, 0xa103, Some("W".to_string()), "path-w"));
    assert_eq!(reg.len(), 2);
    assert_eq!(reg.get(&DeviceId(0x0cf2, 0xa100, "X".to_string())), Some(&"path-x"));
    assert_eq!(reg.get(&DeviceId(0x0cf2, 0xa103, "W".to_string())), Some(&"path-w"));
    assert_eq!(reg.get(&DeviceId(0x0cf2, 0xa103, "X".to_string())), None);
    assert_eq!(reg.get(&DeviceId(0x0cf2, 0xbeef, "Y".to_string())), None);
}

#[test]
fn registering_again_replaces() {
    let mut reg: DeviceRegistry<u32> = DeviceRegistry::new();
    assert!(reg.register(0x0cf2, 0xa100, Some("X".to_string()), 1));
    assert!(reg.register(0x0cf2, 0xa100, Some("X".to_string()), 2));
    assert_eq!(reg.len(), 1);
    assert_eq!(reg.get(&DeviceId(0x0cf2, 0xa100, "X".to_string())), Some(&2));
}

#[test]
fn ids_lists_each_hub_once() {
    let mut reg: DeviceRegistry<u32> = DeviceRegistry::new();
    reg.register(0x0cf2, 0xa100, Some("X".to_string()), 1);
    reg.register(0x0cf2, 0xa102, Some("Y".to_string()), 2);
    reg.register(0x0cf2, 0xa100, Some("X".to_string()), 3);
    let mut texts: Vec<String> = reg.ids().iter().map(|id| id.to_string()).collect();
    texts.sort();
    assert_eq!(texts, vec!["(0cf2, a100, X)".to_string(), "(0cf2, a102, Y)".to_string()]);
}

#[test]
fn insert_and_get() {
    let mut reg: DeviceRegistry<i8> = DeviceRegistry::new();
    let id = DeviceId(1, 2, "s".to_string());
    reg.insert(id.clone(), -1);
    assert_eq!(reg.get(&id), Some(&-1));
    reg.insert(id.clone(), 7);
    assert_eq!(reg.get(&id), Some(&7));
    assert_eq!(reg.len(), 1);
}
