//! The HID reports that set the speed of one channel of a UNI hub.
//!
//! Setting a channel takes up to three reports, each followed by a pause:
//! one that turns off syncing the fans to the RGB header, one that selects
//! whether the channel follows the motherboard's PWM signal, and, for a
//! manually driven channel, one that sets its speed.

use vstd::prelude::*;

use crate::config::ChannelMode;

verus! {

/// The hub models, told apart by product id.
#[derive(Clone, Copy, Debug, PartialEq, Eq, Structural)]
pub enum FanModel {
    /// UNI SL (0x7750, 0xa100), and any product id not listed.
    SL,
    /// UNI AL (0xa101).
    AL,
    /// UNI SL-Infinity (0xa102).
    SLInfinity,
    /// UNI SL v2 (0xa103, 0xa105).
    SLV2,
    /// UNI AL v2 (0xa104).
    ALV2,
}

/// The model a product id stands for.
pub open spec fn model_of(product_id: u16) -> FanModel {
    if product_id == 0xa100 || product_id == 0x7750 {
        FanModel::SL
    } else if product_id == 0xa101 {
        FanModel::AL
    } else if product_id == 0xa102 {
        FanModel::SLInfinity
    } else if product_id == 0xa103 || product_id == 0xa105 {
        FanModel::SLV2
    } else if product_id == 0xa104 {
        FanModel::ALV2
    } else {
        FanModel::SL
    }
}

/// The model a product id stands for.
pub fn fan_model(product_id: u16) -> (m: FanModel)
    ensures
        m == model_of(product_id),
{
    if product_id == 0xa100 || product_id == 0x7750 {
        FanModel::SL
    } else if product_id == 0xa101 {
        FanModel::AL
    } else if product_id == 0xa102 {
        FanModel::SLInfinity
    } else if product_id == 0xa103 || product_id == 0xa105 {
        FanModel::SLV2
    } else if product_id == 0xa104 {
        FanModel::ALV2
    } else {
        FanModel::SL
    }
}

/// First byte of every report.
pub const REPORT_ID: u8 = 224;

/// Second byte of the two configuration reports.
pub const CONFIG_COMMAND: u8 = 16;

/// Pause after the two configuration reports, in milliseconds.
pub const CONFIG_PAUSE_MS: u64 = 200;

/// Pause after the speed report, in milliseconds.
pub const SPEED_PAUSE_MS: u64 = 100;

/// Register of the "sync fans to the RGB header" setting.
pub open spec fn sync_register(m: FanModel) -> u8 {
    match m {
        FanModel::SL => 48,
        FanModel::AL => 65,
        _ => 97,
    }
}

/// Register of the per-channel PWM setting.
pub open spec fn channel_register(m: FanModel) -> u8 {
    match m {
        FanModel::SL => 49,
        FanModel::AL => 66,
        _ => 98,
    }
}

/// The channel setting byte: bit `4 + channel` (dropped for channels 4 and
/// above, as the shift leaves the byte) and, for PWM, bit `channel`.
pub open spec fn channel_setting(channel: usize, mode: ChannelMode) -> u8
    recommends
        channel < 8,
{
    let base: u8 = 0x10u8 << (channel as u8);
    if mode == ChannelMode::PWM {
        base | (1u8 << (channel as u8))
    } else {
        base
    }
}

/// The requested speed, capped at 100 %.
pub open spec fn capped_percent(speed_percent: u8) -> int {
    if speed_percent > 100 { 100 } else { speed_percent as int }
}

/// The speed byte a model expects for a speed in percent: the fan's
/// rpm range mapped onto the percentage, in the unit the hub counts in.
pub open spec fn speed_value(m: FanModel, speed_percent: u8) -> int {
    let s = capped_percent(speed_percent);
    match m {
        FanModel::SL | FanModel::AL => (800 + 11 * s) / 19,
        FanModel::SLInfinity => (200 + 19 * s) / 21,
        FanModel::SLV2 | FanModel::ALV2 => (500 + 35 * s) / 40,
    }
}

/// The speed byte a model expects for a speed in percent.
pub fn speed_byte(m: FanModel, speed_percent: u8) -> (b: u8)
    ensures
        b == speed_value(m, speed_percent),
        b <= 100,
{
    let s: u32 = if speed_percent > 100 { 100 } else { speed_percent as u32 };
    let v: u32 = match m {
        FanModel::SL | FanModel::AL => (800 + 11 * s) / 19,
        FanModel::SLInfinity => (200 + 19 * s) / 21,
        FanModel::SLV2 | FanModel::ALV2 => (500 + 35 * s) / 40,
    };
    v as u8
}

/// The channel setting byte (see [`channel_setting`]).
pub fn channel_setting_byte(channel: usize, mode: ChannelMode) -> (b: u8)
    requires
        channel < 8,
    ensures
        b == channel_setting(channel, mode),
{
    let c: u8 = channel as u8;
    let base: u8 = 0x10u8 << c;
    match mode {
        ChannelMode::PWM => base | (1u8 << c),
        ChannelMode::Manual => base,
    }
}

/// A higher speed in percent never gives a lower speed byte, on any model.
pub proof fn lemma_speed_value_monotone(m: FanModel, p: u8, q: u8)
    requires
        p <= q,
    ensures
        speed_value(m, p) <= speed_value(m, q),
{
    let a = capped_percent(p);
    let b = capped_percent(q);
    assert(a <= b);
    match m {
        FanModel::SL | FanModel::AL => {
            assert((800 + 11 * a) / 19 <= (800 + 11 * b) / 19) by (nonlinear_arith)
                requires
                    a <= b,
            ;
        },
        FanModel::SLInfinity => {
            assert((200 + 19 * a) / 21 <= (200 + 19 * b) / 21) by (nonlinear_arith)
                requires
                    a <= b,
            ;
        },
        FanModel::SLV2 | FanModel::ALV2 => {
            assert((500 + 35 * a) / 40 <= (500 + 35 * b) / 40) by (nonlinear_arith)
                requires
                    a <= b,
            ;
        },
    }
}

/// Every model runs at the top of its range, byte 100, from 100 % up.
pub proof fn lemma_full_speed(m: FanModel, p: u8)
    requires
        p >= 100,
    ensures
        speed_value(m, p) == 100,
{
}

/// A channel that follows the PWM signal gets no speed report: the reports
/// are the same whatever speed is asked for.
pub proof fn lemma_pwm_ignores_speed(product_id: u16, channel: usize, p: u8, q: u8)
    ensures
        speed_reports(product_id, channel, ChannelMode::PWM, p) == speed_reports(
            product_id,
            channel,
            ChannelMode::PWM,
            q,
        ),
        speed_reports(product_id, channel, ChannelMode::PWM, p).len() == 2,
        speed_reports(product_id, channel, ChannelMode::Manual, p).len() == 3,
{
}

/// Bit `b` of a byte.
pub open spec fn bit(x: u8, b: u8) -> bool {
    (x >> b) & 1u8 == 1u8
}

/// The channel setting byte has bit `4 + channel` set (when that bit is in
/// the byte, for channels 0 to 3), bit `channel` set exactly for PWM, and no
/// other bit.
pub proof fn lemma_channel_setting_bits(channel: usize, mode: ChannelMode, b: u8)
    requires
        channel < 8,
        b < 8,
    ensures
        bit(channel_setting(channel, mode), b) == ((b == channel + 4) || (mode == ChannelMode::PWM
            && b == channel)),
{
    let c = channel as u8;
    assert(((0x10u8 << c) >> b) & 1u8 == 1u8 <==> b == c + 4) by (bit_vector)
        requires
            c < 8,
            b < 8,
    ;
    assert((((0x10u8 << c) | (1u8 << c)) >> b) & 1u8 == 1u8 <==> (b == c + 4 || b == c)) by (bit_vector)
        requires
            c < 8,
            b < 8,
    ;
}

/// The reports for every hub, stated per product id: the first turns off RGB
/// sync on register 48 (UNI SL, 0x7750 and 0xa100, and unknown ids), 65
/// (UNI AL, 0xa101) or 97 (0xa102 to 0xa105); the second sets the channel
/// on register 49, 66 or 98; a manual channel gets a third report to
/// register `32 + channel` whose speed byte maps the capped percentage `s`
/// onto the model's rpm range: 0xa102 (SL-Infinity, 200-2100 rpm) gives
/// (200 + 19s)/21, 0xa103 to 0xa105 (v2 hubs, 250-2000 rpm) give
/// (500 + 35s)/40, every other id (800-1900 rpm) gives (800 + 11s)/19.
pub proof fn lemma_reports_by_product(product_id: u16, channel: usize, mode: ChannelMode, p: u8)
    requires
        channel < 8,
    ensures
        ({
            let r = speed_reports(product_id, channel, mode, p);
            let s: int = if p > 100 { 100 } else { p as int };
            let sync_reg: u8 = if product_id == 0xa101 {
                65
            } else if 0xa102 <= product_id <= 0xa105 {
                97
            } else {
                48
            };
            let chan_reg: u8 = if product_id == 0xa101 {
                66
            } else if 0xa102 <= product_id <= 0xa105 {
                98
            } else {
                49
            };
            let speed: int = if product_id == 0xa102 {
                (200 + 19 * s) / 21
            } else if 0xa103 <= product_id <= 0xa105 {
                (500 + 35 * s) / 40
            } else {
                (800 + 11 * s) / 19
            };
            &&& r.len() == (if mode == ChannelMode::Manual { 3int } else { 2int })
            &&& r[0] == (seq![224u8, 16u8, sync_reg, 0u8, 0u8, 0u8, 0u8], 200u64)
            &&& r[1].0.len() == 4 && r[1].0[0] == 224 && r[1].0[1] == 16 && r[1].0[2] == chan_reg
            &&& r[1].1 == 200
            &&& mode == ChannelMode::Manual ==> r[2] == (
                seq![224u8, (32 + channel) as u8, 0u8, speed as u8],
                100u64,
            )
            &&& 0 <= speed <= 100
        }),
{
}

/// The channel setting byte sent in the second report has bit `4 + channel`
/// set, bit `channel` set exactly when the channel follows PWM, and no other
/// bit: for channels 0 to 3 it is `16 << channel` for a manual channel and
/// `17 << channel` for a PWM channel.
pub proof fn lemma_channel_report_bits(product_id: u16, channel: usize, mode: ChannelMode, p: u8)
    requires
        channel < 4,
    ensures
        ({
            let byte = speed_reports(product_id, channel, mode, p)[1].0[3];
            &&& forall|b: u8|
                b < 8 ==> (#[trigger] bit(byte, b) == ((b == channel + 4) || (mode == ChannelMode::PWM
                    && b == channel)))
            &&& byte == (if mode == ChannelMode::PWM { 17int } else { 16int }) * (if channel == 0 {
                1int
            } else if channel == 1 {
                2int
            } else if channel == 2 {
                4int
            } else {
                8int
            })
        }),
{
    let byte = speed_reports(product_id, channel, mode, p)[1].0[3];
    assert(byte == channel_setting(channel, mode));
    assert forall|b: u8| b < 8 implies (#[trigger] bit(byte, b) == ((b == channel + 4) || (mode
        == ChannelMode::PWM && b == channel))) by {
        lemma_channel_setting_bits(channel, mode, b);
    }
    let c = channel as u8;
    assert(c < 4 ==> (0x10u8 << c) == (if c == 0 { 16u8 } else if c == 1 { 32u8 } else if c == 2 { 64u8 } else { 128u8 })) by (bit_vector);
    assert(c < 4 ==> ((0x10u8 << c) | (1u8 << c)) == (if c == 0 { 17u8 } else if c == 1 { 34u8 } else if c == 2 { 68u8 } else { 136u8 })) by (bit_vector);
}

/// One report to write to the hub, and the pause to make after it.
#[derive(Debug)]
pub struct HidReport {
    pub bytes: Vec<u8>,
    pub pause_ms: u64,
}

/// The reports as plain values.
pub open spec fn reports_view(reports: Seq<HidReport>) -> Seq<(Seq<u8>, u64)> {
    reports.map_values(|r: HidReport| (r.bytes@, r.pause_ms))
}

/// The reports that set `channel` of a hub with this product id to `mode`
/// and, for a manual channel, to `speed_percent`.
pub open spec fn speed_reports(
    product_id: u16,
    channel: usize,
    mode: ChannelMode,
    speed_percent: u8,
) -> Seq<(Seq<u8>, u64)> {
    let m = model_of(product_id);
    let sync = (seq![REPORT_ID, CONFIG_COMMAND, sync_register(m), 0u8, 0u8, 0u8, 0u8], CONFIG_PAUSE_MS);
    let chan = (seq![REPORT_ID, CONFIG_COMMAND, channel_register(m), channel_setting(channel, mode)], CONFIG_PAUSE_MS);
    if mode == ChannelMode::Manual {
        let speed = (
            seq![REPORT_ID, (channel + 32) as u8, 0u8, speed_value(m, speed_percent) as u8],
            SPEED_PAUSE_MS,
        );
        seq![sync, chan, speed]
    } else {
        seq![sync, chan]
    }
}

/// The reports that set a channel of a hub (see [`speed_reports`]).
///
/// The channel must be below 8: the setting byte has one bit per channel.
pub fn fan_speed_reports(
    product_id: u16,
    channel: usize,
    mode: ChannelMode,
    speed_percent: u8,
) -> (reports: Vec<HidReport>)
    requires
        channel < 8,
    ensures
        reports_view(reports@) == speed_reports(product_id, channel, mode, speed_percent),
        reports@.len() == speed_reports(product_id, channel, mode, speed_percent).len(),
{
    let m = fan_model(product_id);
    let sync_reg: u8 = match m {
        FanModel::SL => 48,
        FanModel::AL => 65,
        _ => 97,
    };
    let chan_reg: u8 = match m {
        FanModel::SL => 49,
        FanModel::AL => 66,
        _ => 98,
    };
    let mut reports: Vec<HidReport> = Vec::new();
    reports.push(HidReport {
        bytes: vec![REPORT_ID, CONFIG_COMMAND, sync_reg, 0, 0, 0, 0],
        pause_ms: CONFIG_PAUSE_MS,
    });
    reports.push(HidReport {
        bytes: vec![REPORT_ID, CONFIG_COMMAND, chan_reg, channel_setting_byte(channel, mode)],
        pause_ms: CONFIG_PAUSE_MS,
    });
    match mode {
        ChannelMode::Manual => {
            let target: u8 = (channel + 32) as u8;
            reports.push(HidReport {
                bytes: vec![REPORT_ID, target, 0, speed_byte(m, speed_percent)],
                pause_ms: SPEED_PAUSE_MS,
            });
        },
        ChannelMode::PWM => {},
    }
    assert(reports_view(reports@) =~= speed_reports(product_id, channel, mode, speed_percent));
    reports
}

} // verus!
