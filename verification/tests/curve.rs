use uni_sync_curve::config::{ChannelMode, CurvePoint, FanCurve};
use uni_sync_curve::curve::{fan_speed_plan, SpeedPlan, FALLBACK_SPEED_PERCENT};
use uni_sync_curve::device::DeviceId;
use uni_sync_curve::temperature::Celsius;

fn point(t: f64, s: u8) -> CurvePoint {
    CurvePoint { temperature_celsius: Celsius(t.to_bits()), fan_speed_percent: s }
}

fn c(t: f64) -> Celsius {
    Celsius(t.to_bits())
}

/// The linear interpolation between two points, rounded and clamped to 0..=100.
fn interpolate(temp1: f64, speed1: u8, temp2: f64, speed2: u8, current_temp: f64) -> u8 {
    let temp_range = temp2 - temp1;
    let speed_range = speed2 as f64 - speed1 as f64;
    let temp_offset = current_temp - temp1;
    let interpolated_speed = speed1 as f64 + (temp_offset / temp_range) * speed_range;
    interpolated_speed.round().clamp(0.0, 100.0) as u8
}

fn speed(curve: &FanCurve, t: f64) -> u8 {
    match fan_speed_plan(&curve.curve_points, c(t)) {
        SpeedPlan::Fixed(s) => s,
        SpeedPlan::Interpolate { lower, upper } => interpolate(
            f64::from_bits(lower.temperature_celsius.0),
            lower.fan_speed_percent,
            f64::from_bits(upper.temperature_celsius.0),
            upper.fan_speed_percent,
            t,
        ),
    }
}

fn sample_curve() -> FanCurve {
    FanCurve {
        device_id: DeviceId(0x0cf2, 0x7750, "TEST123".to_string()),
        channel: 0,
        mode: ChannelMode::Manual,
        curve_points: vec![point(30.0, 20), point(50.0, 40), point(70.0, 70), point(85.0, 100)],
    }
}

#[test]
fn curve_test_fan_curve_calculation() {
    let curve = sample_curve();
    assert_eq!(speed(&curve, 25.0), 20);
    assert_eq!(speed(&curve, 30.0), 20);
    assert_eq!(speed(&curve, 40.0), 30);
    assert_eq!(speed(&curve, 50.0), 40);
    assert_eq!(speed(&curve, 60.0), 55);
    assert_eq!(speed(&curve, 70.0), 70);
    assert_eq!(speed(&curve, 90.0), 100);
}

#[test]
fn main_test_fan_curve_calculation() {
    let curve = sample_curve();
    assert_eq!(speed(&curve, 25.0), 20);
    assert_eq!(speed(&curve, 30.0), 20);
    assert_eq!(speed(&curve, 40.0), 30);
    assert_eq!(speed(&curve, 50.0), 40);
    assert_eq!(speed(&curve, 60.0), 55);
    assert_eq!(speed(&curve, 70.0), 70);
    assert_eq!(speed(&curve, 90.0), 100);
}

#[test]
fn plan_brackets_the_temperature() {
    let curve = sample_curve();
    assert_eq!(
        fan_speed_plan(&curve.curve_points, c(60.0)),
        SpeedPlan::Interpolate { lower: point(50.0, 40), upper: point(70.0, 70) }
    );
    // exactly on an inner point: that point is the upper neighbour
    assert_eq!(
        fan_speed_plan(&curve.curve_points, c(50.0)),
        SpeedPlan::Interpolate { lower: point(30.0, 20), upper: point(50.0, 40) }
    );
    assert_eq!(fan_speed_plan(&curve.curve_points, c(85.0)), SpeedPlan::Fixed(100));
    assert_eq!(fan_speed_plan(&curve.curve_points, c(-40.0)), SpeedPlan::Fixed(20));
}

#[test]
fn empty_curve_gives_fallback() {
    assert_eq!(FALLBACK_SPEED_PERCENT, 50);
    assert_eq!(fan_speed_plan(&vec![], c(42.0)), SpeedPlan::Fixed(50));
}

#[test]
fn single_point_curve_is_constant() {
    let points = vec![point(60.0, 33)];
    assert_eq!(fan_speed_plan(&points, c(0.0)), SpeedPlan::Fixed(33));
    assert_eq!(fan_speed_plan(&points, c(100.0)), SpeedPlan::Fixed(33));
    assert_eq!(fan_speed_plan(&points, c(f64::NAN)), SpeedPlan::Fixed(33));
}

#[test]
fn nan_temperature_gives_fallback() {
    let curve = sample_curve();
    assert_eq!(fan_speed_plan(&curve.curve_points, c(f64::NAN)), SpeedPlan::Fixed(50));
}

#[test]
fn listing_order_does_not_matter() {
    let shuffled = vec![point(70.0, 70), point(30.0, 20), point(85.0, 100), point(50.0, 40)];
    let curve = sample_curve();
    for t in [0.0, 30.0, 35.5, 50.0, 64.0, 70.0, 84.9, 85.0, 120.0] {
        assert_eq!(fan_speed_plan(&shuffled, c(t)), fan_speed_plan(&curve.curve_points, c(t)));
    }
}

#[test]
fn equal_temperatures_keep_listing_order() {
    // two points at 40 °C: below both, the first listed one counts;
    // above both, the last listed one counts
    let points = vec![point(40.0, 10), point(40.0, 90)];
    assert_eq!(fan_speed_plan(&points, c(40.0)), SpeedPlan::Fixed(10));
    assert_eq!(fan_speed_plan(&points, c(20.0)), SpeedPlan::Fixed(10));
    assert_eq!(fan_speed_plan(&points, c(41.0)), SpeedPlan::Fixed(90));
    let points = vec![point(20.0, 5), point(40.0, 10), point(40.0, 90), point(60.0, 99)];
    assert_eq!(
        fan_speed_plan(&points, c(30.0)),
        SpeedPlan::Interpolate { lower: point(20.0, 5), upper: point(40.0, 10) }
    );
    assert_eq!(
        fan_speed_plan(&points, c(50.0)),
        SpeedPlan::Interpolate { lower: point(40.0, 90), upper: point(60.0, 99) }
    );
}

#[test]
fn negative_and_zero_temperatures_are_ordered() {
    let points = vec![point(0.0, 30), point(-10.0, 10), point(10.0, 50)];
    assert_eq!(fan_speed_plan(&points, c(-20.0)), SpeedPlan::Fixed(10));
    assert_eq!(
        fan_speed_plan(&points, c(-0.0)),
        SpeedPlan::Interpolate { lower: point(-10.0, 10), upper: point(0.0, 30) }
    );
    assert_eq!(
        fan_speed_plan(&points, c(5.0)),
        SpeedPlan::Interpolate { lower: point(0.0, 30), upper: point(10.0, 50) }
    );
}
