use uni_sync_curve::sensors::{
    contains_text, cpu_temperatures, hottest, is_cpu_label, max_cpu_temperature, mentions_cpu,
    SensorReading,
};
use uni_sync_curve::temperature::Celsius;

fn c(t: f64) -> Celsius {
    Celsius(t.to_bits())
}

fn reading(label: &str, t: f64) -> SensorReading {
    SensorReading { label: label.to_string(), temperature: c(t) }
}

#[test]
fn substring_search() {
    assert!(contains_text("k10temp tctl", "tctl"));
    assert!(contains_text("abc", ""));
    assert!(contains_text("", ""));
    assert!(!contains_text("", "a"));
    assert!(!contains_text("cp", "cpu"));
    assert!(contains_text("xxcpu", "cpu"));
    assert!(!contains_text("c p u", "cpu"));
}

#[test]
fn keywords_on_lowercased_labels() {
    assert!(mentions_cpu("cpu package"));
    assert!(mentions_cpu("coretemp package id 0"));
    assert!(mentions_cpu("processor"));
    assert!(mentions_cpu("k10temp tctl"));
    assert!(!mentions_cpu("nvme composite"));
    assert!(!mentions_cpu("CPU"));
}

#[test]
fn labels_are_lowercased_first() {
    assert!(is_cpu_label("CPU"));
    assert!(is_cpu_label("Core 0"));
    assert!(is_cpu_label("k10temp Tctl"));
    assert!(is_cpu_label("PROCESSOR"));
    assert!(!is_cpu_label("amdgpu edge"));
    assert!(!is_cpu_label("acpitz temp1"));
}

#[test]
fn hottest_keeps_first_of_equals_and_skips_nan() {
    assert_eq!(hottest(&vec![]), None);
    assert_eq!(hottest(&vec![c(40.0), c(55.0), c(50.0)]), Some(c(55.0)));
    assert_eq!(hottest(&vec![c(0.0), c(-0.0)]), Some(c(0.0)));
    assert_eq!(hottest(&vec![c(-0.0), c(0.0)]), Some(c(-0.0)));
    assert_eq!(hottest(&vec![c(40.0), c(f64::NAN), c(45.0)]), Some(c(45.0)));
    let first_nan = hottest(&vec![c(f64::NAN), c(45.0)]).unwrap();
    assert!(first_nan.is_nan());
}

#[test]
fn max_cpu_temperature_of_sensors() {
    let readings = vec![
        reading("nvme Composite", 70.0),
        reading("Core 0", 48.0),
        reading("Core 1", 52.5),
        reading("acpitz temp1", 90.0),
        reading("Package id 0 CPU", 51.0),
    ];
    assert_eq!(max_cpu_temperature(&readings), Some(c(52.5)));
    assert_eq!(cpu_temperatures(&readings), vec![c(48.0), c(52.5), c(51.0)]);
    assert_eq!(max_cpu_temperature(&vec![reading("nvme", 30.0)]), None);
    assert_eq!(max_cpu_temperature(&vec![]), None);
}
