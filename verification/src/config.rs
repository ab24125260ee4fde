//! The configuration model: fan curves per hub channel, and the default
//! configuration written when no configuration file exists.

use vstd::prelude::*;

use crate::device::DeviceId;
use crate::temperature::Celsius;

verus! {

/// How a channel's speed is driven.
#[derive(Clone, Copy, Debug, PartialEq, Eq, Structural)]
pub enum ChannelMode {
    /// The speed is set by the controller.
    Manual,
    /// The fans follow the motherboard's PWM signal.
    PWM,
}

/// One point of a fan curve: at this temperature, run at this speed.
#[derive(Clone, Copy, Debug, PartialEq, Eq, Structural)]
pub struct CurvePoint {
    pub temperature_celsius: Celsius,
    pub fan_speed_percent: u8,
}

/// The curve of one channel of one hub.
#[derive(Debug)]
pub struct FanCurve {
    pub device_id: DeviceId,
    pub channel: usize,
    pub mode: ChannelMode,
    pub curve_points: Vec<CurvePoint>,
}

/// The whole configuration.
#[derive(Debug)]
pub struct CurveConfig {
    pub interval_seconds: u64,
    pub fan_curves: Vec<FanCurve>,
}

/// Seconds between two updates in the default configuration.
pub const DEFAULT_INTERVAL_SECONDS: u64 = 10;

/// 30.0 °C as binary64 bits.
pub const DEFAULT_T1_BITS: u64 = 0x403E_0000_0000_0000u64;

/// 50.0 °C as binary64 bits.
pub const DEFAULT_T2_BITS: u64 = 0x4049_0000_0000_0000u64;

/// 65.0 °C as binary64 bits.
pub const DEFAULT_T3_BITS: u64 = 0x4050_4000_0000_0000u64;

/// 80.0 °C as binary64 bits.
pub const DEFAULT_T4_BITS: u64 = 0x4054_0000_0000_0000u64;

/// The curve every hub gets by default: 30 °C → 25 %, 50 °C → 50 %,
/// 65 °C → 75 %, 80 °C → 100 %.
pub open spec fn default_curve_points() -> Seq<CurvePoint> {
    seq![
        CurvePoint { temperature_celsius: Celsius(DEFAULT_T1_BITS), fan_speed_percent: 25 },
        CurvePoint { temperature_celsius: Celsius(DEFAULT_T2_BITS), fan_speed_percent: 50 },
        CurvePoint { temperature_celsius: Celsius(DEFAULT_T3_BITS), fan_speed_percent: 75 },
        CurvePoint { temperature_celsius: Celsius(DEFAULT_T4_BITS), fan_speed_percent: 100 },
    ]
}

/// The default curve of one hub: channel 0, manual mode, the default points.
pub open spec fn is_default_curve(curve: FanCurve, id: DeviceId) -> bool {
    &&& curve.device_id == id
    &&& curve.channel == 0
    &&& curve.mode == ChannelMode::Manual
    &&& curve.curve_points@ == default_curve_points()
}

fn default_points() -> (points: Vec<CurvePoint>)
    ensures
        points@ == default_curve_points(),
{
    let points = vec![
        CurvePoint { temperature_celsius: Celsius(DEFAULT_T1_BITS), fan_speed_percent: 25 },
        CurvePoint { temperature_celsius: Celsius(DEFAULT_T2_BITS), fan_speed_percent: 50 },
        CurvePoint { temperature_celsius: Celsius(DEFAULT_T3_BITS), fan_speed_percent: 75 },
        CurvePoint { temperature_celsius: Celsius(DEFAULT_T4_BITS), fan_speed_percent: 100 },
    ];
    assert(points@ =~= default_curve_points());
    points
}

/// The configuration written when none exists: the default interval and,
/// for each given hub in the given order, its default curve.
pub fn get_default_config(device_ids: Vec<DeviceId>) -> (config: CurveConfig)
    ensures
        config.interval_seconds == DEFAULT_INTERVAL_SECONDS,
        config.fan_curves.len() == device_ids.len(),
        forall|i: int|
            0 <= i < device_ids.len() ==> is_default_curve(
                #[trigger] config.fan_curves@[i],
                device_ids@[i],
            ),
{
    let mut fan_curves: Vec<FanCurve> = Vec::new();
    let n = device_ids.len();
    for i in 0..n
        invariant
            n == device_ids.len(),
            fan_curves.len() == i,
            forall|j: int|
                0 <= j < i ==> is_default_curve(#[trigger] fan_curves@[j], device_ids@[j]),
    {
        let curve = FanCurve {
            device_id: device_ids[i].clone(),
            channel: 0,
            mode: ChannelMode::Manual,
            curve_points: default_points(),
        };
        fan_curves.push(curve);
    }
    CurveConfig { interval_seconds: DEFAULT_INTERVAL_SECONDS, fan_curves }
}

} // verus!
