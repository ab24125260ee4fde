//! What setting the speed of one channel of a hub takes: finding the hub
//! among those registered, and the reports to write to it.

use vstd::prelude::*;
use vstd::string::*;

use crate::config::ChannelMode;
use crate::device::{device_id_text, DeviceId, DeviceRegistry};
use crate::protocol::{fan_speed_reports, reports_view, speed_reports, HidReport};

verus! {

/// Why a channel's speed could not be set.
#[derive(Debug)]
pub enum ControlError {
    /// No hub with this id was found.
    DeviceNotAvailable(DeviceId),
}

/// The text of an error.
pub open spec fn error_text(e: ControlError) -> Seq<char> {
    match e {
        ControlError::DeviceNotAvailable(id) => "Device with given device id "@ + device_id_text(id@)
            + " not available"@,
    }
}

impl ControlError {
    /// The text shown for this error (see [`error_text`]).
    pub fn message(&self) -> (text: String)
        ensures
            text@ == error_text(*self),
    {
        match self {
            ControlError::DeviceNotAvailable(id) => {
                let mut text = String::from_str("Device with given device id ");
                text.append(id.to_string().as_str());
                text.append(" not available");
                text
            },
        }
    }
}

/// What it takes to set `channel` of the hub `device_id` to `mode` and, for
/// a manual channel, to `speed_percent`: the value registered for the hub and
/// the reports to write to it, or an error when the hub is not registered.
///
/// The channel must be below 8 (see [`fan_speed_reports`]).
pub fn plan_set_fan_speed<'a, T>(
    registry: &'a DeviceRegistry<T>,
    device_id: &DeviceId,
    channel: usize,
    mode: ChannelMode,
    speed_percent: u8,
) -> (r: Result<(&'a T, Vec<HidReport>), ControlError>)
    requires
        channel < 8,
    ensures
        r is Ok <==> registry@.contains_key(device_id@),
        r matches Ok((v, reports)) ==> *v == registry@[device_id@] && reports_view(reports@)
            == speed_reports(device_id.1, channel, mode, speed_percent),
        r matches Err(e) ==> e == ControlError::DeviceNotAvailable(*device_id),
{
    match registry.get(device_id) {
        Some(v) => Ok((v, fan_speed_reports(device_id.1, channel, mode, speed_percent))),
        None => Err(ControlError::DeviceNotAvailable(device_id.clone())),
    }
}

} // verus!
