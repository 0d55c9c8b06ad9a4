//! What is shown of the system that is received and of the board.

use vstd::prelude::*;
use crate::calendar::wall_clock;
use crate::clock::elapsed_secs;
use crate::text::{append_padded, append_upper_hex};

verus! {

/// Build that is shown.
pub const BUILD_TAG: &'static str = "2026-04-15-tdu-lc-burst-fix";

/// A time that the system broadcast.
#[derive(Debug, Clone, Copy, PartialEq, Eq, Structural)]
pub struct SystemClock {
    pub year: u16,
    pub month: u8,
    pub day: u8,
    pub hours: u8,
    pub minutes: u8,
    /// Whether the system's clock is locked to a reference.
    pub locked: bool,
}

/// What is known of the system. The NAC and the channels are as they are shown.
pub struct SystemIdentity {
    pub nac: Option<String>,
    pub wacn: Option<u32>,
    pub system_id: Option<u16>,
    pub rfss_id: Option<u8>,
    pub site_id: Option<u8>,
    pub lra: Option<u8>,
    pub control_channel: Option<String>,
    pub secondary_cch_a: Option<String>,
    pub secondary_cch_b: Option<String>,
    pub sndcp_downlink_channel: Option<String>,
    pub sndcp_uplink_channel: Option<String>,
    pub clock: Option<SystemClock>,
}

/// P25 system identity information.
#[derive(Debug)]
pub struct SystemInfo {
    pub nac: Option<String>,
    pub wacn: Option<String>,
    pub system_id: Option<String>,
    pub rfss_id: Option<u8>,
    pub site_id: Option<u8>,
    pub lra: Option<u8>,
    pub control_channel: Option<String>,
    /// A further control channel.
    pub secondary_cch_a: Option<String>,
    /// A further control channel.
    pub secondary_cch_b: Option<String>,
    /// Data channel, downlink.
    pub sndcp_downlink_channel: Option<String>,
    /// Data channel, uplink.
    pub sndcp_uplink_channel: Option<String>,
    /// The last time that the system broadcast.
    pub system_clock: Option<String>,
    /// Build that is running.
    pub build: Option<String>,
}

/// A clock as it is shown.
pub open spec fn clock_text(c: SystemClock) -> Seq<char> {
    crate::text::zero_padded(crate::text::decimal(c.year as nat), 4) + "-"@
        + crate::text::zero_padded(crate::text::decimal(c.month as nat), 2) + "-"@
        + crate::text::zero_padded(crate::text::decimal(c.day as nat), 2) + " "@
        + crate::text::zero_padded(crate::text::decimal(c.hours as nat), 2) + ":"@
        + crate::text::zero_padded(crate::text::decimal(c.minutes as nat), 2) + " "@ + (if c.locked {
        "LOCKED"@
    } else {
        "UNLOCKED"@
    })
}

fn show_clock(c: &SystemClock) -> (s: String)
    ensures
        s@ == clock_text(*c),
{
    let mut s = String::new();
    append_padded(&mut s, c.year as u64, 4);
    assert(s@ =~= crate::text::zero_padded(crate::text::decimal(c.year as nat), 4));
    s.append("-");
    append_padded(&mut s, c.month as u64, 2);
    s.append("-");
    append_padded(&mut s, c.day as u64, 2);
    s.append(" ");
    append_padded(&mut s, c.hours as u64, 2);
    s.append(":");
    append_padded(&mut s, c.minutes as u64, 2);
    s.append(" ");
    s.append(
        if c.locked {
            "LOCKED"
        } else {
            "UNLOCKED"
        },
    );
    s
}

/// A number in hexadecimal, where there is one.
pub open spec fn shows_hex(s: Option<String>, n: Option<int>, width: nat) -> bool {
    match n {
        Some(v) => s is Some && s->0@ == crate::text::zero_padded(
            crate::text::upper_hex(v as nat),
            width,
        ),
        None => s is None,
    }
}

fn show_hex(n: u64, width: u8) -> (s: String)
    ensures
        s@ == crate::text::zero_padded(crate::text::upper_hex(n as nat), width as nat),
{
    let mut s = String::new();
    append_upper_hex(&mut s, n, width);
    assert(s@ =~= crate::text::zero_padded(crate::text::upper_hex(n as nat), width as nat));
    s
}

/// What is shown of the system.
pub fn system_info(id: SystemIdentity) -> (info: SystemInfo)
    ensures
        info.nac == id.nac,
        shows_hex(
            info.wacn,
            match id.wacn {
                Some(v) => Some(v as int),
                None => None,
            },
            5,
        ),
        shows_hex(
            info.system_id,
            match id.system_id {
                Some(v) => Some(v as int),
                None => None,
            },
            3,
        ),
        info.rfss_id == id.rfss_id,
        info.site_id == id.site_id,
        info.lra == id.lra,
        info.control_channel == id.control_channel,
        info.secondary_cch_a == id.secondary_cch_a,
        info.secondary_cch_b == id.secondary_cch_b,
        info.sndcp_downlink_channel == id.sndcp_downlink_channel,
        info.sndcp_uplink_channel == id.sndcp_uplink_channel,
        match id.clock {
            Some(c) => info.system_clock is Some && info.system_clock->0@ == clock_text(c),
            None => info.system_clock is None,
        },
        info.build is Some && info.build->0@ == "2026-04-15-tdu-lc-burst-fix"@,
{
    let wacn: Option<String> = match id.wacn {
        Some(v) => Some(show_hex(v as u64, 5)),
        None => None,
    };
    let system_id: Option<String> = match id.system_id {
        Some(v) => Some(show_hex(v as u64, 3)),
        None => None,
    };
    let system_clock: Option<String> = match &id.clock {
        Some(c) => Some(show_clock(c)),
        None => None,
    };
    SystemInfo {
        nac: id.nac,
        wacn,
        system_id,
        rfss_id: id.rfss_id,
        site_id: id.site_id,
        lra: id.lra,
        control_channel: id.control_channel,
        secondary_cch_a: id.secondary_cch_a,
        secondary_cch_b: id.secondary_cch_b,
        sndcp_downlink_channel: id.sndcp_downlink_channel,
        sndcp_uplink_channel: id.sndcp_uplink_channel,
        system_clock,
        build: Some(BUILD_TAG.to_owned()),
    }
}

/// Samples of the converter to one sample of the down-converter.
pub const DDC_DECIMATION: u32 = 128;

/// How the down-converter decimates.
pub const DDC_DECIMATION_TEXT: &'static str = "/4 /4 /8 = /128";

/// What is shown of the board.
pub struct BoardReport {
    pub ddc_decimation: &'static str,
    pub ddc_output_rate_hz: Option<u32>,
    pub wall_clock: Option<String>,
    pub uptime_secs: u64,
}

/// What is shown of the board: the rate behind the down-converter, the date and
/// time of seconds since 1970, and the time since it was started.
pub fn board_report(
    sampling_frequency_hz: Option<u32>,
    wall_secs: Option<u64>,
    started_at: u64,
    now: u64,
) -> (r: BoardReport)
    ensures
        r.ddc_decimation@ == "/4 /4 /8 = /128"@,
        match sampling_frequency_hz {
            Some(hz) => r.ddc_output_rate_hz == Some(hz / 128),
            None => r.ddc_output_rate_hz is None,
        },
        match wall_secs {
            Some(secs) => {
                &&& r.wall_clock is Some
                &&& exists|t: (i32, u32, u32, u32, u32, u32)| #[trigger]
                    crate::calendar::is_time_of(secs, t) && r.wall_clock->0@
                        == crate::calendar::rendered_time(t)
            },
            None => r.wall_clock is None,
        },
        r.uptime_secs == crate::clock::elapsed(started_at, now) / 1_000_000_000,
{
    BoardReport {
        ddc_decimation: DDC_DECIMATION_TEXT,
        ddc_output_rate_hz: match sampling_frequency_hz {
            Some(hz) => Some(hz / DDC_DECIMATION),
            None => None,
        },
        wall_clock: match wall_secs {
            Some(secs) => Some(wall_clock(secs)),
            None => None,
        },
        uptime_secs: elapsed_secs(started_at, now),
    }
}

/// A clock is shown as year, month, day, hours and minutes, each at its place,
/// and says at the end whether it is locked.
pub proof fn clock_fields_are_in_place(c: SystemClock)
    requires
        c.year < 10000,
        c.month < 100,
        c.day < 100,
        c.hours < 100,
        c.minutes < 100,
    ensures
        crate::text::decimal_value(clock_text(c).subrange(0, 4)) == c.year,
        clock_text(c)[4] == '-',
        crate::text::decimal_value(clock_text(c).subrange(5, 7)) == c.month,
        clock_text(c)[7] == '-',
        crate::text::decimal_value(clock_text(c).subrange(8, 10)) == c.day,
        clock_text(c)[10] == ' ',
        crate::text::decimal_value(clock_text(c).subrange(11, 13)) == c.hours,
        clock_text(c)[13] == ':',
        crate::text::decimal_value(clock_text(c).subrange(14, 16)) == c.minutes,
        clock_text(c)[16] == ' ',
        clock_text(c).skip(17) == if c.locked {
            "LOCKED"@
        } else {
            "UNLOCKED"@
        },
{
    reveal_strlit("-");
    reveal_strlit(" ");
    reveal_strlit(":");
    crate::text::padded_decimals_denote_numbers(c.year as nat, 4);
    crate::text::padded_decimals_denote_numbers(c.month as nat, 2);
    crate::text::padded_decimals_denote_numbers(c.day as nat, 2);
    crate::text::padded_decimals_denote_numbers(c.hours as nat, 2);
    crate::text::padded_decimals_denote_numbers(c.minutes as nat, 2);
    let t = clock_text(c);
    let y = crate::text::zero_padded(crate::text::decimal(c.year as nat), 4);
    let mo = crate::text::zero_padded(crate::text::decimal(c.month as nat), 2);
    let d = crate::text::zero_padded(crate::text::decimal(c.day as nat), 2);
    let h = crate::text::zero_padded(crate::text::decimal(c.hours as nat), 2);
    let mi = crate::text::zero_padded(crate::text::decimal(c.minutes as nat), 2);
    let end = if c.locked {
        "LOCKED"@
    } else {
        "UNLOCKED"@
    };
    assert(t.subrange(0, 4) =~= y);
    assert(t.subrange(5, 7) =~= mo);
    assert(t.subrange(8, 10) =~= d);
    assert(t.subrange(11, 13) =~= h);
    assert(t.subrange(14, 16) =~= mi);
    assert(t.skip(17) =~= end);
}

/// What is shown in hexadecimal denotes the number, with the digits asked for,
/// and nothing is shown where there is none.
pub proof fn shown_hexadecimal_denotes_the_number(s: Option<String>, n: Option<int>, width: nat)
    requires
        shows_hex(s, n, width),
        n matches Some(v) ==> v >= 0,
    ensures
        s is Some <==> n is Some,
        n matches Some(v) ==> crate::text::hex_value(s->0@) == v && s->0@.len() >= width,
{
    if let Some(v) = n {
        crate::text::hexadecimal_denotes_the_number(v as nat, width);
    }
}

} // verus!
