use uni_sync_curve::config::ChannelMode;
use uni_sync_curve::protocol::{
    channel_setting_byte, fan_model, fan_speed_reports, speed_byte, FanModel,
};

fn float_speed(model: FanModel, speed_percent: u8) -> u8 {
    let speed = (speed_percent as f64).clamp(0.0, 100.0);
    let speed_800_1900: u8 = ((800.0 + (11.0 * speed)) as usize / 19).try_into().unwrap();
    let speed_250_2000: u8 = ((250.0 + (17.5 * speed)) as usize / 20).try_into().unwrap();
    let speed_200_2100: u8 = ((200.0 + (19.0 * speed)) as usize / 21).try_into().unwrap();
    match model {
        FanModel::SL | FanModel::AL => speed_800_1900,
        FanModel::SLInfinity => speed_200_2100,
        FanModel::SLV2 | FanModel::ALV2 => speed_250_2000,
    }
}

#[test]
fn speed_byte_matches_float_formula_everywhere() {
    for model in [FanModel::SL, FanModel::AL, FanModel::SLInfinity, FanModel::SLV2, FanModel::ALV2] {
        for p in 0..=255u8 {
            assert_eq!(speed_byte(model, p), float_speed(model, p), "{:?} {}", model, p);
        }
    }
}

#[test]
fn speed_byte_values() {
    assert_eq!(speed_byte(FanModel::SL, 0), 42);
    assert_eq!(speed_byte(FanModel::SL, 50), 71);
    assert_eq!(speed_byte(FanModel::SL, 100), 100);
    assert_eq!(speed_byte(FanModel::SLInfinity, 0), 9);
    assert_eq!(speed_byte(FanModel::SLInfinity, 55), 59);
    assert_eq!(speed_byte(FanModel::SLV2, 0), 12);
    assert_eq!(speed_byte(FanModel::ALV2, 50), 56);
    assert_eq!(speed_byte(FanModel::SLV2, 200), 100);
}

#[test]
fn speed_byte_is_monotone() {
    for model in [FanModel::SL, FanModel::AL, FanModel::SLInfinity, FanModel::SLV2, FanModel::ALV2] {
        for p in 0..255u8 {
            assert!(speed_byte(model, p) <= speed_byte(model, p + 1));
        }
    }
}

#[test]
fn models_by_product_id() {
    assert_eq!(fan_model(0x7750), FanModel::SL);
    assert_eq!(fan_model(0xa100), FanModel::SL);
    assert_eq!(fan_model(0xa101), FanModel::AL);
    assert_eq!(fan_model(0xa102), FanModel::SLInfinity);
    assert_eq!(fan_model(0xa103), FanModel::SLV2);
    assert_eq!(fan_model(0xa105), FanModel::SLV2);
    assert_eq!(fan_model(0xa104), FanModel::ALV2);
    assert_eq!(fan_model(0x1234), FanModel::SL);
}

#[test]
fn channel_setting_bytes() {
    assert_eq!(channel_setting_byte(0, ChannelMode::Manual), 0x10);
    assert_eq!(channel_setting_byte(0, ChannelMode::PWM), 0x11);
    assert_eq!(channel_setting_byte(3, ChannelMode::Manual), 0x80);
    assert_eq!(channel_setting_byte(3, ChannelMode::PWM), 0x88);
    assert_eq!(channel_setting_byte(5, ChannelMode::Manual), 0x00);
    assert_eq!(channel_setting_byte(5, ChannelMode::PWM), 0x20);
}

fn as_plain(reports: Vec<uni_sync_curve::protocol::HidReport>) -> Vec<(Vec<u8>, u64)> {
    reports.into_iter().map(|r| (r.bytes, r.pause_ms)).collect()
}

#[test]
fn manual_sl_reports() {
    assert_eq!(
        as_plain(fan_speed_reports(0x7750, 1, ChannelMode::Manual, 50)),
        vec![
            (vec![224, 16, 48, 0, 0, 0, 0], 200),
            (vec![224, 16, 49, 0x20], 200),
            (vec![224, 33, 0, 71], 100),
        ]
    );
}

#[test]
fn manual_al_and_infinity_reports() {
    assert_eq!(
        as_plain(fan_speed_reports(0xa101, 0, ChannelMode::Manual, 100)),
        vec![
            (vec![224, 16, 65, 0, 0, 0, 0], 200),
            (vec![224, 16, 66, 0x10], 200),
            (vec![224, 32, 0, 100], 100),
        ]
    );
    assert_eq!(
        as_plain(fan_speed_reports(0xa102, 2, ChannelMode::Manual, 0)),
        vec![
            (vec![224, 16, 97, 0, 0, 0, 0], 200),
            (vec![224, 16, 98, 0x40], 200),
            (vec![224, 34, 0, 9], 100),
        ]
    );
}

#[test]
fn pwm_reports_have_no_speed() {
    assert_eq!(
        as_plain(fan_speed_reports(0xa104, 3, ChannelMode::PWM, 77)),
        vec![(vec![224, 16, 97, 0, 0, 0, 0], 200), (vec![224, 16, 98, 0x88], 200)]
    );
}
