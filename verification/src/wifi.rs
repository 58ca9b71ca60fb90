//! Wireless networks: channels and their frequencies.

use vstd::prelude::*;

verus! {

/// An access point as a scan reports it.
pub struct AccessPoint {
    pub ssid: String,
    pub bssid: String,
    pub rssi: i32,
    pub channel: i32,
    pub security: String,
    pub frequency: i32,
}

/// An access point as plain values.
pub struct ApView {
    pub ssid: Seq<char>,
    pub bssid: Seq<char>,
    pub rssi: i32,
    pub channel: i32,
    pub security: Seq<char>,
    pub frequency: i32,
}

impl View for AccessPoint {
    type V = ApView;

    open spec fn view(&self) -> ApView {
        ApView {
            ssid: self.ssid@,
            bssid: self.bssid@,
            rssi: self.rssi,
            channel: self.channel,
            security: self.security@,
            frequency: self.frequency,
        }
    }
}

/// The access points as plain values.
pub open spec fn ap_views(aps: Seq<AccessPoint>) -> Seq<ApView> {
    aps.map_values(|ap: AccessPoint| ap@)
}

/// An access point of which nothing is known yet.
pub open spec fn blank_ap() -> ApView {
    ApView {
        ssid: Seq::empty(),
        bssid: Seq::empty(),
        rssi: 0,
        channel: 0,
        security: Seq::empty(),
        frequency: 0,
    }
}

impl AccessPoint {
    /// An access point of which nothing is known yet.
    pub fn blank() -> (ap: AccessPoint)
        ensures
            ap@ == blank_ap(),
    {
        AccessPoint {
            ssid: String::new(),
            bssid: String::new(),
            rssi: 0,
            channel: 0,
            security: String::new(),
            frequency: 0,
        }
    }
}

impl Clone for AccessPoint {
    fn clone(&self) -> (out: Self)
        ensures
            out@ == self@,
    {
        AccessPoint {
            ssid: self.ssid.clone(),
            bssid: self.bssid.clone(),
            rssi: self.rssi,
            channel: self.channel,
            security: self.security.clone(),
            frequency: self.frequency,
        }
    }
}

/// The centre frequency of a channel in MHz: channels 1 to 13 lie 5 MHz
/// apart from 2412 on, channel 14 lies at 2484, channels 32 to 196 lie at
/// 5000 plus five times the channel; any other number is no channel and
/// gets 0.
pub open spec fn frequency_of(channel: int) -> int {
    if 1 <= channel <= 13 {
        2407 + channel * 5
    } else if channel == 14 {
        2484
    } else if 32 <= channel <= 196 {
        5000 + channel * 5
    } else {
        0
    }
}

/// The centre frequency of a channel in MHz, or 0 for a number that is no
/// channel.
pub fn channel_to_frequency(channel: i32) -> (frequency: i32)
    ensures
        frequency == frequency_of(channel as int),
{
    if channel >= 1 && channel <= 13 {
        return 2407 + channel * 5;
    }
    if channel == 14 {
        return 2484;
    }
    if channel >= 32 && channel <= 196 {
        return 5000 + channel * 5;
    }
    0
}

/// Half of `n`, rounded towards zero.
pub open spec fn half(n: int) -> int {
    if n >= 0 {
        n / 2
    } else {
        -((-n) / 2)
    }
}

/// The signal strength in dBm that a quality in percent stands for, by
/// rule of thumb: half the percentage, less 100.
pub open spec fn dbm(percent: i32) -> i32 {
    (half(percent as int) - 100) as i32
}

/// The signal strength in dBm that a quality in percent stands for.
pub fn percent_to_dbm(percent: i32) -> (level: i32)
    ensures
        level == dbm(percent),
{
    percent / 2 - 100
}

/// Channels that lie apart have frequencies that lie apart, in the same
/// order, within the 2.4 GHz band and within the 5 GHz band.
pub proof fn lemma_frequency_monotonic(a: int, b: int)
    requires
        (1 <= a < b <= 14) || (32 <= a < b <= 196),
    ensures
        frequency_of(a) < frequency_of(b),
{
}

} // verus!
