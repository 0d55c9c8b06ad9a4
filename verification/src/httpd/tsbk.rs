//! Control-channel messages: what was decoded of each kind, and the last ones.

use vstd::prelude::*;
use crate::clock::elapsed_ns;
use crate::slices::sum_slice;
use crate::sorting::sorted_order;
use crate::text::{append_decimal, append_padded, append_signed, append_upper_hex, prefixed_hex};

verus! {

/// Kinds of control-channel messages.
pub const OPCODES: usize = 64;

/// The name of an opcode.
pub open spec fn opcode_name(op: u8) -> Seq<char> {
    if op == 0x00 {
        "GRP_V_CH_GRANT"@
    } else if op == 0x02 {
        "GRP_V_CH_GRANT_UPDT"@
    } else if op == 0x03 {
        "GRP_V_CH_GRANT_UPDT_EXP"@
    } else if op == 0x04 {
        "UU_V_CH_GRANT"@
    } else if op == 0x05 {
        "UU_ANS_REQ"@
    } else if op == 0x06 {
        "UU_V_CH_GRANT_UPDT"@
    } else if op == 0x08 {
        "TELE_INT_V_CH_GRANT"@
    } else if op == 0x09 {
        "TELE_INT_V_CH_GRANT_UPDT"@
    } else if op == 0x0A {
        "TELE_INT_ANS_REQ"@
    } else if op == 0x14 {
        "SNDCP_DCH_GRANT"@
    } else if op == 0x15 {
        "SNDCP_DCH_PAG_RQ"@
    } else if op == 0x16 {
        "SNDCP_DCH_ANN_EX"@
    } else if op == 0x18 {
        "STS_UPDT"@
    } else if op == 0x1C {
        "MSG_UPDT"@
    } else if op == 0x1F {
        "CALL_ALERT"@
    } else if op == 0x20 {
        "ACK_RESPONSE_FNE"@
    } else if op == 0x21 {
        "QUEUED_RESP"@
    } else if op == 0x22 {
        "EXT_FNCT_CMD"@
    } else if op == 0x24 {
        "DENY_RESPONSE"@
    } else if op == 0x27 {
        "GRP_AFFIL_RESP"@
    } else if op == 0x28 {
        "SCCB"@
    } else if op == 0x29 {
        "RFSS_STS_BCST_EXP"@
    } else if op == 0x2A {
        "NET_STS_BCST_EXP"@
    } else if op == 0x2B {
        "ADJ_STS_BCST_EXP"@
    } else if op == 0x2C {
        "IDEN_UP_VUHF_EXP"@
    } else if op == 0x2D {
        "DENY_RESPONSE_EXP"@
    } else if op == 0x2F {
        "DE_REGIST_ACK"@
    } else if op == 0x30 {
        "TDMA_SYNC_BCST"@
    } else if op == 0x31 {
        "AUTH_DMD"@
    } else if op == 0x32 {
        "AUTH_FNE_RESULT"@
    } else if op == 0x33 {
        "IDEN_UPDATE_TDMA"@
    } else if op == 0x34 {
        "IDEN_UPDATE_VUHF"@
    } else if op == 0x36 {
        "TIME_DATE"@
    } else if op == 0x37 {
        "ROAM_ADDR_CMD"@
    } else if op == 0x38 {
        "SYS_SRV_BCST"@
    } else if op == 0x39 {
        "SEC_CCH_BROADCST"@
    } else if op == 0x3A {
        "RFSS_STATUS_BCST"@
    } else if op == 0x3B {
        "NET_STATUS_BCAST"@
    } else if op == 0x3C {
        "ADJ_STS_BCAST"@
    } else if op == 0x3D {
        "IDEN_UPDATE"@
    } else if op == 0x3E {
        "PROT_PARAM_BCST"@
    } else if op == 0x3F {
        "PROT_PARAM_UPDT"@
    } else {
        "(unknown)"@
    }
}

/// The name of an opcode.
pub fn opcode_label(op: u8) -> (label: &'static str)
    ensures
        label@ == opcode_name(op),
{
    match op {
        0x00 => "GRP_V_CH_GRANT",
        0x02 => "GRP_V_CH_GRANT_UPDT",
        0x03 => "GRP_V_CH_GRANT_UPDT_EXP",
        0x04 => "UU_V_CH_GRANT",
        0x05 => "UU_ANS_REQ",
        0x06 => "UU_V_CH_GRANT_UPDT",
        0x08 => "TELE_INT_V_CH_GRANT",
        0x09 => "TELE_INT_V_CH_GRANT_UPDT",
        0x0A => "TELE_INT_ANS_REQ",
        0x14 => "SNDCP_DCH_GRANT",
        0x15 => "SNDCP_DCH_PAG_RQ",
        0x16 => "SNDCP_DCH_ANN_EX",
        0x18 => "STS_UPDT",
        0x1C => "MSG_UPDT",
        0x1F => "CALL_ALERT",
        0x20 => "ACK_RESPONSE_FNE",
        0x21 => "QUEUED_RESP",
        0x22 => "EXT_FNCT_CMD",
        0x24 => "DENY_RESPONSE",
        0x27 => "GRP_AFFIL_RESP",
        0x28 => "SCCB",
        0x29 => "RFSS_STS_BCST_EXP",
        0x2A => "NET_STS_BCST_EXP",
        0x2B => "ADJ_STS_BCST_EXP",
        0x2C => "IDEN_UP_VUHF_EXP",
        0x2D => "DENY_RESPONSE_EXP",
        0x2F => "DE_REGIST_ACK",
        0x30 => "TDMA_SYNC_BCST",
        0x31 => "AUTH_DMD",
        0x32 => "AUTH_FNE_RESULT",
        0x33 => "IDEN_UPDATE_TDMA",
        0x34 => "IDEN_UPDATE_VUHF",
        0x36 => "TIME_DATE",
        0x37 => "ROAM_ADDR_CMD",
        0x38 => "SYS_SRV_BCST",
        0x39 => "SEC_CCH_BROADCST",
        0x3A => "RFSS_STATUS_BCST",
        0x3B => "NET_STATUS_BCAST",
        0x3C => "ADJ_STS_BCAST",
        0x3D => "IDEN_UPDATE",
        0x3E => "PROT_PARAM_BCST",
        0x3F => "PROT_PARAM_UPDT",
        _ => "(unknown)",
    }
}

/// Whether messages of an opcode are understood.
pub open spec fn is_understood(op: u8) -> bool {
    op == 0x00 || op == 0x02 || op == 0x33 || op == 0x34 || op == 0x3A || op == 0x3B || op == 0x3C
        || op == 0x3D || op == 0x05 || op == 0x09 || op == 0x16 || op == 0x30 || op == 0x39
}

/// Whether messages of an opcode are understood.
pub fn opcode_understood(op: u8) -> (r: bool)
    ensures
        r == is_understood(op),
{
    match op {
        0x00 | 0x02 | 0x33 | 0x34 | 0x3A | 0x3B | 0x3C | 0x3D => true,
        0x05 | 0x09 | 0x16 | 0x30 | 0x39 => true,
        _ => false,
    }
}

/// One opcode that was seen.
pub struct OpcodeEntry {
    pub opcode: u8,
    /// The opcode in hexadecimal.
    pub shown: String,
    pub label: &'static str,
    pub ok: u64,
    pub fail: u64,
    /// Whether messages of the opcode are understood.
    pub parsed: bool,
}

/// The opcodes that were seen, and how many blocks there were in all.
pub struct OpcodeReport {
    pub entries: Vec<OpcodeEntry>,
    pub total_ok: u64,
    pub total_fail: u64,
}

/// Whether blocks of an opcode were seen.
pub open spec fn was_seen(ok: Seq<u64>, fail: Seq<u64>, op: int) -> bool {
    ok[op] > 0 || fail[op] > 0
}

/// Whether an entry shows what was counted for its opcode.
pub open spec fn shows_opcode(e: OpcodeEntry, ok: Seq<u64>, fail: Seq<u64>) -> bool {
    &&& e.opcode < OPCODES
    &&& e.shown@ == seq!['0', 'x'] + crate::text::zero_padded(
        crate::text::upper_hex(e.opcode as nat),
        2,
    )
    &&& e.label@ == opcode_name(e.opcode)
    &&& e.ok == ok[e.opcode as int]
    &&& e.fail == fail[e.opcode as int]
    &&& e.parsed == is_understood(e.opcode)
    &&& was_seen(ok, fail, e.opcode as int)
}

/// Whether an entry comes before another: the one with more good blocks first,
/// then the one with the lower opcode.
pub open spec fn listed_before(a: OpcodeEntry, b: OpcodeEntry) -> bool {
    a.ok > b.ok || (a.ok == b.ok && a.opcode < b.opcode)
}

/// Whether an opcode is listed.
pub open spec fn lists_opcode(entries: Seq<OpcodeEntry>, op: int) -> bool {
    exists|i: int| 0 <= i < entries.len() && (#[trigger] entries[i]).opcode == op
}

fn entry_for(op: u8, ok: u64, fail: u64) -> (e: OpcodeEntry)
    ensures
        e.opcode == op,
        e.shown@ == seq!['0', 'x'] + crate::text::zero_padded(crate::text::upper_hex(op as nat), 2),
        e.label@ == opcode_name(op),
        e.ok == ok,
        e.fail == fail,
        e.parsed == is_understood(op),
{
    OpcodeEntry {
        opcode: op,
        shown: prefixed_hex(op as u64, 2),
        label: opcode_label(op),
        ok,
        fail,
        parsed: opcode_understood(op),
    }
}

/// The opcodes that were seen, those with the most good blocks first.
pub fn opcode_report(ok: &[u64; 64], fail: &[u64; 64]) -> (r: OpcodeReport)
    requires
        crate::slices::sum_of(ok@) <= u64::MAX,
        crate::slices::sum_of(fail@) <= u64::MAX,
    ensures
        r.total_ok == crate::slices::sum_of(ok@),
        r.total_fail == crate::slices::sum_of(fail@),
        forall|i: int| 0 <= i < r.entries@.len() ==> shows_opcode(#[trigger] r.entries@[i], ok@, fail@),
        forall|i: int, j: int|
            0 <= i < j < r.entries@.len() ==> listed_before(
                #[trigger] r.entries@[i],
                #[trigger] r.entries@[j],
            ),
        forall|op: int|
            0 <= op < 64 && #[trigger] was_seen(ok@, fail@, op) ==> lists_opcode(r.entries@, op),
{
    let mut seen: Vec<u8> = Vec::new();
    let mut keys: Vec<u128> = Vec::new();
    let mut op: u8 = 0;
    while op < 64
        invariant
            op <= 64,
            keys@.len() == seen@.len(),
            forall|i: int|
                0 <= i < seen@.len() ==> (#[trigger] seen@[i]) < op && was_seen(
                    ok@,
                    fail@,
                    seen@[i] as int,
                ) && keys@[i] == u64::MAX - ok@[seen@[i] as int],
            forall|i: int, j: int|
                0 <= i < j < seen@.len() ==> (#[trigger] seen@[i]) < (#[trigger] seen@[j]),
            forall|k: int|
                0 <= k < op && #[trigger] was_seen(ok@, fail@, k) ==> seen@.contains(k as u8),
        decreases 64 - op,
    {
        let good: u64 = ok[op as usize];
        let bad: u64 = fail[op as usize];
        let ghost before = seen@;
        if good > 0 || bad > 0 {
            seen.push(op);
            keys.push((u64::MAX - good) as u128);
            proof {
                assert(seen@[before.len() as int] == op);
                assert forall|k: int| 0 <= k < op + 1 && #[trigger] was_seen(
                    ok@,
                    fail@,
                    k,
                ) implies seen@.contains(k as u8) by {
                    if k < op {
                        assert(before.contains(k as u8));
                        let i = before.index_of(k as u8);
                        assert(seen@[i] == k as u8);
                    }
                }
            }
        }
        op = op + 1;
    }
    let order: Vec<usize> = sorted_order(&keys);
    let mut entries: Vec<OpcodeEntry> = Vec::new();
    let mut n: usize = 0;
    while n < order.len()
        invariant
            n <= order@.len(),
            order@.len() == seen@.len(),
            forall|k: int| 0 <= k < order@.len() ==> (#[trigger] order@[k]) < seen@.len(),
            forall|i: int|
                0 <= i < seen@.len() ==> (#[trigger] seen@[i]) < 64 && was_seen(
                    ok@,
                    fail@,
                    seen@[i] as int,
                ),
            entries@.len() == n,
            forall|i: int|
                0 <= i < n ==> shows_opcode(#[trigger] entries@[i], ok@, fail@)
                    && entries@[i].opcode == seen@[order@[i] as int],
        decreases order@.len() - n,
    {
        let at: u8 = seen[order[n]];
        let ghost before = entries@;
        entries.push(entry_for(at, ok[at as usize], fail[at as usize]));
        assert forall|i: int| 0 <= i < entries@.len() implies shows_opcode(
            #[trigger] entries@[i],
            ok@,
            fail@,
        ) && entries@[i].opcode == seen@[order@[i] as int] by {
            if i < n {
                assert(entries@[i] == before[i]);
            }
        }
        n = n + 1;
    }
    proof {
        assert forall|i: int, j: int| 0 <= i < j < entries@.len() implies listed_before(
            #[trigger] entries@[i],
            #[trigger] entries@[j],
        ) by {
            assert(crate::sorting::sorts_before(keys@, order@[i], order@[j]));
            let a = order@[i] as int;
            let b = order@[j] as int;
            assert(keys@[a] == u64::MAX - ok@[seen@[a] as int]);
            assert(keys@[b] == u64::MAX - ok@[seen@[b] as int]);
            if keys@[a] == keys@[b] {
                assert(seen@[a] < seen@[b]);
            }
        }
        assert forall|op: int| 0 <= op < 64 && #[trigger] was_seen(
            ok@,
            fail@,
            op,
        ) implies lists_opcode(entries@, op) by {
            assert(seen@.contains(op as u8));
            let k = seen@.index_of(op as u8) as usize;
            assert(order@.contains(k));
            let i = order@.index_of(k);
            assert(entries@[i].opcode == op);
        }
    }
    OpcodeReport {
        entries,
        total_ok: sum_slice(ok.as_slice()),
        total_fail: sum_slice(fail.as_slice()),
    }
}

/// No opcode is listed twice.
pub proof fn opcodes_are_listed_once(
    entries: Seq<OpcodeEntry>,
    ok: Seq<u64>,
    fail: Seq<u64>,
    i: int,
    j: int,
)
    requires
        0 <= i < entries.len(),
        0 <= j < entries.len(),
        forall|k: int| 0 <= k < entries.len() ==> shows_opcode(#[trigger] entries[k], ok, fail),
        forall|a: int, b: int|
            0 <= a < b < entries.len() ==> listed_before(
                #[trigger] entries[a],
                #[trigger] entries[b],
            ),
        entries[i].opcode == entries[j].opcode,
    ensures
        i == j,
{
    if i < j {
        assert(listed_before(entries[i], entries[j]));
    } else if j < i {
        assert(listed_before(entries[j], entries[i]));
    }
}

/// A control-channel message. Channels, talkgroups and units are as they are
/// shown.
pub enum TsbkMessage {
    /// A network status.
    NetworkStatus { wacn: u32, system_id: u16, channel: String },
    /// The status of a site.
    RfssStatus { lra: u8, rfss_id: u8, site_id: u8, channel: String },
    /// The status of a neighbouring site.
    AdjacentStatus { lra: u8, rfss_id: u8, site_id: u8, channel: String, system_id: u16 },
    /// A band plan.
    IdentifierUpdate { identifier: u8, bw: u64, transmit_offset: i64, channel_spacing: u64, base_frequency: u64 },
    /// A voice grant.
    GroupVoiceChannelGrant { channel: String, talkgroup: String, source: String, encrypted: bool },
    /// Voice grants that go on.
    GroupVoiceChannelGrantUpdate { channel_a: String, talkgroup_a: String, channel_b: String, talkgroup_b: String },
    /// Further control channels.
    SecondaryControlChannelBroadcast { rfss_id: u8, site_id: u8, channel_a: String, channel_b: String },
    /// A data channel.
    SndcpDataChannelAnnouncementExplicit { downlink_channel: String, uplink_channel: String, autonomous_access: bool, requested_access: bool },
    /// The system's clock.
    TdmaSyncBroadcast { year: u16, month: u8, day: u8, hours: u8, minutes: u8, time_locked: bool },
    /// A telephone grant that goes on.
    TelephoneInterconnectVoiceChannelGrantUpdate { channel: String, call_timer_secs: u64, unit_id: String },
    /// A unit asks another to answer.
    UnitToUnitAnswerRequest { target: String, source: String },
}

/// One text or another.
pub open spec fn when(flag: bool, yes: Seq<char>, no: Seq<char>) -> Seq<char> {
    if flag {
        yes
    } else {
        no
    }
}

/// A message in one line.
pub open spec fn message_text(m: TsbkMessage) -> Seq<char> {
    match m {
        TsbkMessage::NetworkStatus { wacn, system_id, channel } => {
            "NET_STATUS_BCAST WACN:"@
                + crate::text::zero_padded(crate::text::upper_hex(wacn as nat), 5)
                + " SYS:"@
                + crate::text::zero_padded(crate::text::upper_hex(system_id as nat), 3)
                + " CH:"@
                + channel@
        },
        TsbkMessage::RfssStatus { lra, rfss_id, site_id, channel } => {
            "RFSS_STATUS_BCST LRA:"@
                + crate::text::decimal(lra as nat)
                + " RFSS:"@
                + crate::text::decimal(rfss_id as nat)
                + " SITE:"@
                + crate::text::decimal(site_id as nat)
                + " CH:"@
                + channel@
        },
        TsbkMessage::AdjacentStatus { lra, rfss_id, site_id, channel, system_id } => {
            "ADJ_STS_BCAST LRA:"@
                + crate::text::decimal(lra as nat)
                + " SYS:"@
                + crate::text::zero_padded(crate::text::upper_hex(system_id as nat), 3)
                + " RFSS:"@
                + crate::text::decimal(rfss_id as nat)
                + " SITE:"@
                + crate::text::decimal(site_id as nat)
                + " CH:"@
                + channel@
        },
        TsbkMessage::IdentifierUpdate { identifier, bw, transmit_offset, channel_spacing, base_frequency } => {
            "IDEN_UPDATE ID:"@
                + crate::text::decimal(identifier as nat)
                + " OFFSET:"@
                + crate::text::signed_decimal(transmit_offset as int)
                + " SPACING:"@
                + crate::text::decimal(channel_spacing as nat)
                + " BASE:"@
                + crate::text::decimal(base_frequency as nat)
                + " BW:"@
                + crate::text::decimal(bw as nat)
        },
        TsbkMessage::GroupVoiceChannelGrant { channel, talkgroup, source, encrypted } => {
            "GRP_V_CH_GRANT CH:"@
                + channel@
                + " TG:"@
                + talkgroup@
                + " SRC:"@
                + source@
                + when(encrypted, " [ENC]"@, ""@)
        },
        TsbkMessage::GroupVoiceChannelGrantUpdate { channel_a, talkgroup_a, channel_b, talkgroup_b } => {
            "GRP_V_CH_GRANT_UPDT CH_A:"@
                + channel_a@
                + " TG_A:"@
                + talkgroup_a@
                + " CH_B:"@
                + channel_b@
                + " TG_B:"@
                + talkgroup_b@
        },
        TsbkMessage::SecondaryControlChannelBroadcast { rfss_id, site_id, channel_a, channel_b } => {
            "SEC_CCH_BROADCST RFSS:"@
                + crate::text::decimal(rfss_id as nat)
                + " SITE:"@
                + crate::text::decimal(site_id as nat)
                + " A:"@
                + channel_a@
                + " B:"@
                + channel_b@
        },
        TsbkMessage::SndcpDataChannelAnnouncementExplicit { downlink_channel, uplink_channel, autonomous_access, requested_access } => {
            "SNDCP_DCH_ANN_EX DL:"@
                + downlink_channel@
                + " UL:"@
                + uplink_channel@
                + " "@
                + when(autonomous_access, "AUTO "@, ""@)
                + when(requested_access, "REQ"@, ""@)
        },
        TsbkMessage::TdmaSyncBroadcast { year, month, day, hours, minutes, time_locked } => {
            "TDMA_SYNC_BCST "@
                + crate::text::zero_padded(crate::text::decimal(year as nat), 4)
                + "-"@
                + crate::text::zero_padded(crate::text::decimal(month as nat), 2)
                + "-"@
                + crate::text::zero_padded(crate::text::decimal(day as nat), 2)
                + " "@
                + crate::text::zero_padded(crate::text::decimal(hours as nat), 2)
                + ":"@
                + crate::text::zero_padded(crate::text::decimal(minutes as nat), 2)
                + " "@
                + when(time_locked, "LOCKED"@, "UNLOCKED"@)
        },
        TsbkMessage::TelephoneInterconnectVoiceChannelGrantUpdate { channel, call_timer_secs, unit_id } => {
            "TEL_INT_VCH_GRNT_UPDT UNIT:"@
                + unit_id@
                + " CH:"@
                + channel@
                + " timer:"@
                + crate::text::decimal(call_timer_secs as nat)
                + "s"@
        },
        TsbkMessage::UnitToUnitAnswerRequest { target, source } => {
            "UU_ANS_REQ TGT:"@
                + target@
                + " SRC:"@
                + source@
        },
    }
}

/// A message in one line.
pub fn summarize(m: &TsbkMessage) -> (s: String)
    ensures
        s@ == message_text(*m),
{
    match m {
        TsbkMessage::NetworkStatus { wacn, system_id, channel } => {
            let mut s = "NET_STATUS_BCAST WACN:".to_owned();
            append_upper_hex(&mut s, *wacn as u64, 5);
            s.append(" SYS:");
            append_upper_hex(&mut s, *system_id as u64, 3);
            s.append(" CH:");
            s.append(channel.as_str());
            s
        },
        TsbkMessage::RfssStatus { lra, rfss_id, site_id, channel } => {
            let mut s = "RFSS_STATUS_BCST LRA:".to_owned();
            append_decimal(&mut s, *lra as u64);
            s.append(" RFSS:");
            append_decimal(&mut s, *rfss_id as u64);
            s.append(" SITE:");
            append_decimal(&mut s, *site_id as u64);
            s.append(" CH:");
            s.append(channel.as_str());
            s
        },
        TsbkMessage::AdjacentStatus { lra, rfss_id, site_id, channel, system_id } => {
            let mut s = "ADJ_STS_BCAST LRA:".to_owned();
            append_decimal(&mut s, *lra as u64);
            s.append(" SYS:");
            append_upper_hex(&mut s, *system_id as u64, 3);
            s.append(" RFSS:");
            append_decimal(&mut s, *rfss_id as u64);
            s.append(" SITE:");
            append_decimal(&mut s, *site_id as u64);
            s.append(" CH:");
            s.append(channel.as_str());
            s
        },
        TsbkMessage::IdentifierUpdate { identifier, bw, transmit_offset, channel_spacing, base_frequency } => {
            let mut s = "IDEN_UPDATE ID:".to_owned();
            append_decimal(&mut s, *identifier as u64);
            s.append(" OFFSET:");
            append_signed(&mut s, *transmit_offset);
            s.append(" SPACING:");
            append_decimal(&mut s, *channel_spacing as u64);
            s.append(" BASE:");
            append_decimal(&mut s, *base_frequency as u64);
            s.append(" BW:");
            append_decimal(&mut s, *bw as u64);
            s
        },
        TsbkMessage::GroupVoiceChannelGrant { channel, talkgroup, source, encrypted } => {
            let mut s = "GRP_V_CH_GRANT CH:".to_owned();
            s.append(channel.as_str());
            s.append(" TG:");
            s.append(talkgroup.as_str());
            s.append(" SRC:");
            s.append(source.as_str());
            s.append(
                if *encrypted {
                    " [ENC]"
                } else {
                    ""
                },
            );
            s
        },
        TsbkMessage::GroupVoiceChannelGrantUpdate { channel_a, talkgroup_a, channel_b, talkgroup_b } => {
            let mut s = "GRP_V_CH_GRANT_UPDT CH_A:".to_owned();
            s.append(channel_a.as_str());
            s.append(" TG_A:");
            s.append(talkgroup_a.as_str());
            s.append(" CH_B:");
            s.append(channel_b.as_str());
            s.append(" TG_B:");
            s.append(talkgroup_b.as_str());
            s
        },
        TsbkMessage::SecondaryControlChannelBroadcast { rfss_id, site_id, channel_a, channel_b } => {
            let mut s = "SEC_CCH_BROADCST RFSS:".to_owned();
            append_decimal(&mut s, *rfss_id as u64);
            s.append(" SITE:");
            append_decimal(&mut s, *site_id as u64);
            s.append(" A:");
            s.append(channel_a.as_str());
            s.append(" B:");
            s.append(channel_b.as_str());
            s
        },
        TsbkMessage::SndcpDataChannelAnnouncementExplicit { downlink_channel, uplink_channel, autonomous_access, requested_access } => {
            let mut s = "SNDCP_DCH_ANN_EX DL:".to_owned();
            s.append(downlink_channel.as_str());
            s.append(" UL:");
            s.append(uplink_channel.as_str());
            s.append(" ");
            s.append(
                if *autonomous_access {
                    "AUTO "
                } else {
                    ""
                },
            );
            s.append(
                if *requested_access {
                    "REQ"
                } else {
                    ""
                },
            );
            s
        },
        TsbkMessage::TdmaSyncBroadcast { year, month, day, hours, minutes, time_locked } => {
            let mut s = "TDMA_SYNC_BCST ".to_owned();
            append_padded(&mut s, *year as u64, 4);
            s.append("-");
            append_padded(&mut s, *month as u64, 2);
            s.append("-");
            append_padded(&mut s, *day as u64, 2);
            s.append(" ");
            append_padded(&mut s, *hours as u64, 2);
            s.append(":");
            append_padded(&mut s, *minutes as u64, 2);
            s.append(" ");
            s.append(
                if *time_locked {
                    "LOCKED"
                } else {
                    "UNLOCKED"
                },
            );
            s
        },
        TsbkMessage::TelephoneInterconnectVoiceChannelGrantUpdate { channel, call_timer_secs, unit_id } => {
            let mut s = "TEL_INT_VCH_GRNT_UPDT UNIT:".to_owned();
            s.append(unit_id.as_str());
            s.append(" CH:");
            s.append(channel.as_str());
            s.append(" timer:");
            append_decimal(&mut s, *call_timer_secs as u64);
            s.append("s");
            s
        },
        TsbkMessage::UnitToUnitAnswerRequest { target, source } => {
            let mut s = "UU_ANS_REQ TGT:".to_owned();
            s.append(target.as_str());
            s.append(" SRC:");
            s.append(source.as_str());
            s
        },
    }
}

/// The name of a block of a data unit.
pub open spec fn block_name(block: usize) -> Seq<char> {
    if block == 0 {
        "TSBK1"@
    } else if block == 1 {
        "TSBK2"@
    } else if block == 2 {
        "TSBK3"@
    } else {
        "TSBK?"@
    }
}

/// The name of a block of a data unit.
pub fn block_label(block: usize) -> (label: &'static str)
    ensures
        label@ == block_name(block),
{
    match block {
        0 => "TSBK1",
        1 => "TSBK2",
        2 => "TSBK3",
        _ => "TSBK?",
    }
}

/// A message as it was received.
pub struct TsbkRecord {
    /// When it was received, in nanoseconds on one clock.
    pub at: u64,
    pub block: usize,
    pub message: TsbkMessage,
}

/// A message as it is shown.
pub struct TsbkEntry {
    /// How long ago it was received, in nanoseconds.
    pub age_ns: u64,
    pub block: &'static str,
    pub summary: String,
}

/// Messages shown at most.
pub const RECENT_SHOWN: usize = 50;

/// Whether an entry shows a message at `now`.
pub open spec fn shows_message(e: TsbkEntry, m: TsbkRecord, now: u64) -> bool {
    &&& e.age_ns == crate::clock::elapsed(m.at, now)
    &&& e.block@ == block_name(m.block)
    &&& e.summary@ == message_text(m.message)
}

/// The last messages, newest first.
pub fn recent_tsbks(messages: &Vec<TsbkRecord>, now: u64) -> (entries: Vec<TsbkEntry>)
    ensures
        entries@.len() == if messages@.len() < 50 {
            messages@.len()
        } else {
            50
        },
        forall|i: int|
            0 <= i < entries@.len() ==> shows_message(
                #[trigger] entries@[i],
                messages@[messages@.len() - 1 - i],
                now,
            ),
{
    let mut entries: Vec<TsbkEntry> = Vec::new();
    let mut at: usize = messages.len();
    while at > 0 && entries.len() < RECENT_SHOWN
        invariant
            at <= messages@.len(),
            entries@.len() == messages@.len() - at,
            entries@.len() <= RECENT_SHOWN,
            forall|i: int|
                0 <= i < entries@.len() ==> shows_message(
                    #[trigger] entries@[i],
                    messages@[messages@.len() - 1 - i],
                    now,
                ),
        decreases at,
    {
        at = at - 1;
        let m: &TsbkRecord = &messages[at];
        let ghost before = entries@;
        entries.push(
            TsbkEntry {
                age_ns: elapsed_ns(m.at, now),
                block: block_label(m.block),
                summary: summarize(&m.message),
            },
        );
        assert forall|i: int| 0 <= i < entries@.len() implies shows_message(
            #[trigger] entries@[i],
            messages@[messages@.len() - 1 - i],
            now,
        ) by {
            if i < before.len() {
                assert(entries@[i] == before[i]);
            }
        }
    }
    entries
}

/// Messages of every kind that has a summary are understood, and the summary
/// begins with the name of the message's opcode.
pub proof fn summaries_begin_with_the_name(m: TsbkMessage)
    ensures
        m is NetworkStatus ==> is_understood(0x3B) && opcode_name(0x3B).is_prefix_of(
            message_text(m),
        ),
        m is RfssStatus ==> is_understood(0x3A) && opcode_name(0x3A).is_prefix_of(message_text(m)),
        m is AdjacentStatus ==> is_understood(0x3C) && opcode_name(0x3C).is_prefix_of(
            message_text(m),
        ),
        m is IdentifierUpdate ==> is_understood(0x3D) && is_understood(0x33) && is_understood(0x34)
            && opcode_name(0x3D).is_prefix_of(message_text(m)),
        m is GroupVoiceChannelGrant ==> is_understood(0x00) && opcode_name(0x00).is_prefix_of(
            message_text(m),
        ),
        m is GroupVoiceChannelGrantUpdate ==> is_understood(0x02) && opcode_name(0x02).is_prefix_of(
            message_text(m),
        ),
        m is SecondaryControlChannelBroadcast ==> is_understood(0x39) && opcode_name(
            0x39,
        ).is_prefix_of(message_text(m)),
        m is SndcpDataChannelAnnouncementExplicit ==> is_understood(0x16) && opcode_name(
            0x16,
        ).is_prefix_of(message_text(m)),
        m is TdmaSyncBroadcast ==> is_understood(0x30) && opcode_name(0x30).is_prefix_of(
            message_text(m),
        ),
        m is UnitToUnitAnswerRequest ==> is_understood(0x05) && opcode_name(0x05).is_prefix_of(
            message_text(m),
        ),
        m is TelephoneInterconnectVoiceChannelGrantUpdate ==> is_understood(0x09),
{
    let t = message_text(m);
    match m {
        TsbkMessage::NetworkStatus { .. } => {
            reveal_strlit("NET_STATUS_BCAST");
            reveal_strlit("NET_STATUS_BCAST WACN:");
            assert(t.take(16) =~= "NET_STATUS_BCAST"@);
        },
        TsbkMessage::RfssStatus { .. } => {
            reveal_strlit("RFSS_STATUS_BCST");
            reveal_strlit("RFSS_STATUS_BCST LRA:");
            assert(t.take(16) =~= "RFSS_STATUS_BCST"@);
        },
        TsbkMessage::AdjacentStatus { .. } => {
            reveal_strlit("ADJ_STS_BCAST");
            reveal_strlit("ADJ_STS_BCAST LRA:");
            assert(t.take(13) =~= "ADJ_STS_BCAST"@);
        },
        TsbkMessage::IdentifierUpdate { .. } => {
            reveal_strlit("IDEN_UPDATE");
            reveal_strlit("IDEN_UPDATE ID:");
            assert(t.take(11) =~= "IDEN_UPDATE"@);
        },
        TsbkMessage::GroupVoiceChannelGrant { .. } => {
            reveal_strlit("GRP_V_CH_GRANT");
            reveal_strlit("GRP_V_CH_GRANT CH:");
            assert(t.take(14) =~= "GRP_V_CH_GRANT"@);
        },
        TsbkMessage::GroupVoiceChannelGrantUpdate { .. } => {
            reveal_strlit("GRP_V_CH_GRANT_UPDT");
            reveal_strlit("GRP_V_CH_GRANT_UPDT CH_A:");
            assert(t.take(19) =~= "GRP_V_CH_GRANT_UPDT"@);
        },
        TsbkMessage::SecondaryControlChannelBroadcast { .. } => {
            reveal_strlit("SEC_CCH_BROADCST");
            reveal_strlit("SEC_CCH_BROADCST RFSS:");
            assert(t.take(16) =~= "SEC_CCH_BROADCST"@);
        },
        TsbkMessage::SndcpDataChannelAnnouncementExplicit { .. } => {
            reveal_strlit("SNDCP_DCH_ANN_EX");
            reveal_strlit("SNDCP_DCH_ANN_EX DL:");
            assert(t.take(16) =~= "SNDCP_DCH_ANN_EX"@);
        },
        TsbkMessage::TdmaSyncBroadcast { .. } => {
            reveal_strlit("TDMA_SYNC_BCST");
            reveal_strlit("TDMA_SYNC_BCST ");
            assert(t.take(14) =~= "TDMA_SYNC_BCST"@);
        },
        TsbkMessage::UnitToUnitAnswerRequest { .. } => {
            reveal_strlit("UU_ANS_REQ");
            reveal_strlit("UU_ANS_REQ TGT:");
            assert(t.take(10) =~= "UU_ANS_REQ"@);
        },
        TsbkMessage::TelephoneInterconnectVoiceChannelGrantUpdate { .. } => {},
    }
}

/// No more than thirteen opcodes are understood, and each of them has a name.
pub proof fn understood_opcodes_have_names(op: u8)
    ensures
        is_understood(op) ==> op < 64 && opcode_name(op) != "(unknown)"@,
        op >= 64 ==> opcode_name(op) == "(unknown)"@,
        is_understood(op) ==> [0x00u8, 0x02, 0x05, 0x09, 0x16, 0x30, 0x33, 0x34, 0x39, 0x3A, 0x3B, 0x3C, 0x3D]@.contains(
            op,
        ),
{
    reveal_strlit("(unknown)");
    reveal_strlit("GRP_V_CH_GRANT");
    reveal_strlit("GRP_V_CH_GRANT_UPDT");
    reveal_strlit("UU_ANS_REQ");
    reveal_strlit("TELE_INT_V_CH_GRANT_UPDT");
    reveal_strlit("SNDCP_DCH_ANN_EX");
    reveal_strlit("TDMA_SYNC_BCST");
    reveal_strlit("IDEN_UPDATE_TDMA");
    reveal_strlit("IDEN_UPDATE_VUHF");
    reveal_strlit("SEC_CCH_BROADCST");
    reveal_strlit("RFSS_STATUS_BCST");
    reveal_strlit("NET_STATUS_BCAST");
    reveal_strlit("ADJ_STS_BCAST");
    reveal_strlit("IDEN_UPDATE");
    assert("(unknown)"@[0] == '(');
    let understood = [0x00u8, 0x02, 0x05, 0x09, 0x16, 0x30, 0x33, 0x34, 0x39, 0x3A, 0x3B, 0x3C, 0x3D]@;
    if is_understood(op) {
        assert(opcode_name(op)[0] != '(');
        assert(understood[0] == 0x00 && understood[1] == 0x02 && understood[2] == 0x05
            && understood[3] == 0x09 && understood[4] == 0x16 && understood[5] == 0x30
            && understood[6] == 0x33 && understood[7] == 0x34 && understood[8] == 0x39
            && understood[9] == 0x3A && understood[10] == 0x3B && understood[11] == 0x3C
            && understood[12] == 0x3D);
    }
}

/// The summary of a grant holds its channel, talkgroup and source, in this
/// order, and an encrypted one says so at the end.
pub proof fn grant_summaries_hold_their_fields(
    channel: String,
    talkgroup: String,
    source: String,
    encrypted: bool,
)
    ensures
        ({
            let t = message_text(
                TsbkMessage::GroupVoiceChannelGrant { channel, talkgroup, source, encrypted },
            );
            let a = channel@.len() as int;
            let b = talkgroup@.len() as int;
            let c = source@.len() as int;
            &&& t.subrange(18, 18 + a) == channel@
            &&& t.subrange(22 + a, 22 + a + b) == talkgroup@
            &&& t.subrange(27 + a + b, 27 + a + b + c) == source@
            &&& t.len() == 27 + a + b + c + (if encrypted {
                6int
            } else {
                0
            })
            &&& encrypted ==> t.skip(27 + a + b + c) == " [ENC]"@
        }),
{
    reveal_strlit("GRP_V_CH_GRANT CH:");
    reveal_strlit(" TG:");
    reveal_strlit(" SRC:");
    reveal_strlit(" [ENC]");
    reveal_strlit("");
    let t = message_text(
        TsbkMessage::GroupVoiceChannelGrant { channel, talkgroup, source, encrypted },
    );
    let a = channel@.len() as int;
    let b = talkgroup@.len() as int;
    let c = source@.len() as int;
    assert(t.subrange(18, 18 + a) =~= channel@);
    assert(t.subrange(22 + a, 22 + a + b) =~= talkgroup@);
    assert(t.subrange(27 + a + b, 27 + a + b + c) =~= source@);
    if encrypted {
        assert(t.skip(27 + a + b + c) =~= " [ENC]"@);
    }
}

/// The summary of going grants holds both channels, each before its talkgroup.
pub proof fn grant_update_summaries_hold_their_fields(
    channel_a: String,
    talkgroup_a: String,
    channel_b: String,
    talkgroup_b: String,
)
    ensures
        ({
            let t = message_text(
                TsbkMessage::GroupVoiceChannelGrantUpdate {
                    channel_a,
                    talkgroup_a,
                    channel_b,
                    talkgroup_b,
                },
            );
            let a = channel_a@.len() as int;
            let b = talkgroup_a@.len() as int;
            let c = channel_b@.len() as int;
            let d = talkgroup_b@.len() as int;
            &&& t.subrange(25, 25 + a) == channel_a@
            &&& t.subrange(31 + a, 31 + a + b) == talkgroup_a@
            &&& t.subrange(37 + a + b, 37 + a + b + c) == channel_b@
            &&& t.subrange(43 + a + b + c, 43 + a + b + c + d) == talkgroup_b@
            &&& t.len() == 43 + a + b + c + d
        }),
{
    reveal_strlit("GRP_V_CH_GRANT_UPDT CH_A:");
    reveal_strlit(" TG_A:");
    reveal_strlit(" CH_B:");
    reveal_strlit(" TG_B:");
    let t = message_text(
        TsbkMessage::GroupVoiceChannelGrantUpdate { channel_a, talkgroup_a, channel_b, talkgroup_b },
    );
    let a = channel_a@.len() as int;
    let b = talkgroup_a@.len() as int;
    let c = channel_b@.len() as int;
    let d = talkgroup_b@.len() as int;
    assert(t.subrange(25, 25 + a) =~= channel_a@);
    assert(t.subrange(31 + a, 31 + a + b) =~= talkgroup_a@);
    assert(t.subrange(37 + a + b, 37 + a + b + c) =~= channel_b@);
    assert(t.subrange(43 + a + b + c, 43 + a + b + c + d) =~= talkgroup_b@);
}

/// The summary of a network status holds both numbers in hexadecimal and the
/// channel at the end.
pub proof fn network_summaries_hold_their_fields(wacn: u32, system_id: u16, channel: String)
    ensures
        ({
            let t = message_text(TsbkMessage::NetworkStatus { wacn, system_id, channel });
            let a = crate::text::zero_padded(crate::text::upper_hex(wacn as nat), 5).len() as int;
            let b = crate::text::zero_padded(
                crate::text::upper_hex(system_id as nat),
                3,
            ).len() as int;
            &&& a >= 5
            &&& b >= 3
            &&& crate::text::hex_value(t.subrange(22, 22 + a)) == wacn
            &&& crate::text::hex_value(t.subrange(27 + a, 27 + a + b)) == system_id
            &&& t.skip(31 + a + b) == channel@
        }),
{
    reveal_strlit("NET_STATUS_BCAST WACN:");
    reveal_strlit(" SYS:");
    reveal_strlit(" CH:");
    let t = message_text(TsbkMessage::NetworkStatus { wacn, system_id, channel });
    let w = crate::text::zero_padded(crate::text::upper_hex(wacn as nat), 5);
    let s = crate::text::zero_padded(crate::text::upper_hex(system_id as nat), 3);
    crate::text::hexadecimal_denotes_the_number(wacn as nat, 5);
    crate::text::hexadecimal_denotes_the_number(system_id as nat, 3);
    let a = w.len() as int;
    let b = s.len() as int;
    assert(t.subrange(22, 22 + a) =~= w);
    assert(t.subrange(27 + a, 27 + a + b) =~= s);
    assert(t.skip(31 + a + b) =~= channel@);
}

/// An entry's opcode in hexadecimal denotes it, with two digits or more behind
/// the prefix; the counts are its own, and not both are zero.
pub proof fn entries_show_their_opcode(e: OpcodeEntry, ok: Seq<u64>, fail: Seq<u64>)
    requires
        shows_opcode(e, ok, fail),
    ensures
        e.opcode < 64,
        e.shown@.len() >= 4,
        crate::text::hex_value(e.shown@.skip(2)) == e.opcode,
        e.ok == ok[e.opcode as int],
        e.fail == fail[e.opcode as int],
        e.ok + e.fail > 0,
{
    crate::text::hexadecimal_denotes_the_number(e.opcode as nat, 2);
    assert(e.shown@.skip(2) =~= crate::text::zero_padded(
        crate::text::upper_hex(e.opcode as nat),
        2,
    ));
}

/// Good blocks never grow down the list, and among equals the opcodes rise.
pub proof fn good_blocks_come_first(a: OpcodeEntry, b: OpcodeEntry, c: OpcodeEntry)
    ensures
        listed_before(a, b) ==> a.ok >= b.ok,
        listed_before(a, b) && a.ok == b.ok ==> a.opcode < b.opcode,
        a.ok > b.ok ==> listed_before(a, b),
        a.opcode != b.opcode ==> (listed_before(a, b) <==> !listed_before(b, a)),
        listed_before(a, b) && listed_before(b, c) ==> listed_before(a, c),
{
}

/// The blocks of a data unit are numbered from one.
pub proof fn blocks_are_numbered_from_one(block: usize)
    ensures
        block < 3 ==> block_name(block) == "TSBK"@ + crate::text::decimal((block + 1) as nat),
        block >= 3 ==> block_name(block) == "TSBK?"@,
{
    reveal_strlit("TSBK");
    reveal_strlit("TSBK1");
    reveal_strlit("TSBK2");
    reveal_strlit("TSBK3");
    if block < 3 {
        assert(block_name(block) =~= "TSBK"@ + crate::text::decimal((block + 1) as nat));
    }
}

/// A message's age runs from when it was received.
pub proof fn ages_run_from_reception(e: TsbkEntry, m: TsbkRecord, now: u64)
    requires
        shows_message(e, m, now),
    ensures
        m.at <= now ==> m.at + e.age_ns == now,
        now < m.at ==> e.age_ns == 0,
{
}

/// The summary of a site holds its area, subsystem, site and channel.
pub proof fn site_summaries_hold_their_fields(lra: u8, rfss_id: u8, site_id: u8, channel: String)
    ensures
        ({
            let t = message_text(TsbkMessage::RfssStatus { lra, rfss_id, site_id, channel });
            let p0 = 21int;
            let v0 = crate::text::decimal(lra as nat);
            let p1 = p0 + v0.len() + 6;
            let v1 = crate::text::decimal(rfss_id as nat);
            let p2 = p1 + v1.len() + 6;
            let v2 = crate::text::decimal(site_id as nat);
            let p3 = p2 + v2.len() + 4;
            let v3 = channel@;
            &&& t.subrange(p0, p0 + v0.len()) == v0
            &&& t.subrange(p1, p1 + v1.len()) == v1
            &&& t.subrange(p2, p2 + v2.len()) == v2
            &&& t.subrange(p3, p3 + v3.len()) == v3
        }),
{
    reveal_strlit("RFSS_STATUS_BCST LRA:");
    reveal_strlit(" RFSS:");
    reveal_strlit(" SITE:");
    reveal_strlit(" CH:");
    let t = message_text(TsbkMessage::RfssStatus { lra, rfss_id, site_id, channel });
    let p0 = 21int;
    let v0 = crate::text::decimal(lra as nat);
    let p1 = p0 + v0.len() + 6;
    let v1 = crate::text::decimal(rfss_id as nat);
    let p2 = p1 + v1.len() + 6;
    let v2 = crate::text::decimal(site_id as nat);
    let p3 = p2 + v2.len() + 4;
    let v3 = channel@;
    assert(t.subrange(p0, p0 + v0.len()) =~= v0);
    assert(t.subrange(p1, p1 + v1.len()) =~= v1);
    assert(t.subrange(p2, p2 + v2.len()) =~= v2);
    assert(t.subrange(p3, p3 + v3.len()) =~= v3);
}

/// The summary of a neighbouring site holds its area, system, subsystem, site and
/// channel.
pub proof fn neighbour_summaries_hold_their_fields(lra: u8, rfss_id: u8, site_id: u8, channel: String, system_id: u16)
    ensures
        ({
            let t = message_text(TsbkMessage::AdjacentStatus { lra, rfss_id, site_id, channel, system_id });
            let p0 = 18int;
            let v0 = crate::text::decimal(lra as nat);
            let p1 = p0 + v0.len() + 5;
            let v1 = crate::text::zero_padded(crate::text::upper_hex(system_id as nat), 3);
            let p2 = p1 + v1.len() + 6;
            let v2 = crate::text::decimal(rfss_id as nat);
            let p3 = p2 + v2.len() + 6;
            let v3 = crate::text::decimal(site_id as nat);
            let p4 = p3 + v3.len() + 4;
            let v4 = channel@;
            &&& t.subrange(p0, p0 + v0.len()) == v0
            &&& t.subrange(p1, p1 + v1.len()) == v1
            &&& t.subrange(p2, p2 + v2.len()) == v2
            &&& t.subrange(p3, p3 + v3.len()) == v3
            &&& t.subrange(p4, p4 + v4.len()) == v4
        }),
{
    reveal_strlit("ADJ_STS_BCAST LRA:");
    reveal_strlit(" SYS:");
    reveal_strlit(" RFSS:");
    reveal_strlit(" SITE:");
    reveal_strlit(" CH:");
    let t = message_text(TsbkMessage::AdjacentStatus { lra, rfss_id, site_id, channel, system_id });
    let p0 = 18int;
    let v0 = crate::text::decimal(lra as nat);
    let p1 = p0 + v0.len() + 5;
    let v1 = crate::text::zero_padded(crate::text::upper_hex(system_id as nat), 3);
    let p2 = p1 + v1.len() + 6;
    let v2 = crate::text::decimal(rfss_id as nat);
    let p3 = p2 + v2.len() + 6;
    let v3 = crate::text::decimal(site_id as nat);
    let p4 = p3 + v3.len() + 4;
    let v4 = channel@;
    assert(t.subrange(p0, p0 + v0.len()) =~= v0);
    assert(t.subrange(p1, p1 + v1.len()) =~= v1);
    assert(t.subrange(p2, p2 + v2.len()) =~= v2);
    assert(t.subrange(p3, p3 + v3.len()) =~= v3);
    assert(t.subrange(p4, p4 + v4.len()) =~= v4);
}

/// The summary of a band plan holds its number, offset, spacing, base and width.
pub proof fn band_summaries_hold_their_fields(identifier: u8, bw: u64, transmit_offset: i64, channel_spacing: u64, base_frequency: u64)
    ensures
        ({
            let t = message_text(TsbkMessage::IdentifierUpdate { identifier, bw, transmit_offset, channel_spacing, base_frequency });
            let p0 = 15int;
            let v0 = crate::text::decimal(identifier as nat);
            let p1 = p0 + v0.len() + 8;
            let v1 = crate::text::signed_decimal(transmit_offset as int);
            let p2 = p1 + v1.len() + 9;
            let v2 = crate::text::decimal(channel_spacing as nat);
            let p3 = p2 + v2.len() + 6;
            let v3 = crate::text::decimal(base_frequency as nat);
            let p4 = p3 + v3.len() + 4;
            let v4 = crate::text::decimal(bw as nat);
            &&& t.subrange(p0, p0 + v0.len()) == v0
            &&& t.subrange(p1, p1 + v1.len()) == v1
            &&& t.subrange(p2, p2 + v2.len()) == v2
            &&& t.subrange(p3, p3 + v3.len()) == v3
            &&& t.subrange(p4, p4 + v4.len()) == v4
        }),
{
    reveal_strlit("IDEN_UPDATE ID:");
    reveal_strlit(" OFFSET:");
    reveal_strlit(" SPACING:");
    reveal_strlit(" BASE:");
    reveal_strlit(" BW:");
    let t = message_text(TsbkMessage::IdentifierUpdate { identifier, bw, transmit_offset, channel_spacing, base_frequency });
    let p0 = 15int;
    let v0 = crate::text::decimal(identifier as nat);
    let p1 = p0 + v0.len() + 8;
    let v1 = crate::text::signed_decimal(transmit_offset as int);
    let p2 = p1 + v1.len() + 9;
    let v2 = crate::text::decimal(channel_spacing as nat);
    let p3 = p2 + v2.len() + 6;
    let v3 = crate::text::decimal(base_frequency as nat);
    let p4 = p3 + v3.len() + 4;
    let v4 = crate::text::decimal(bw as nat);
    assert(t.subrange(p0, p0 + v0.len()) =~= v0);
    assert(t.subrange(p1, p1 + v1.len()) =~= v1);
    assert(t.subrange(p2, p2 + v2.len()) =~= v2);
    assert(t.subrange(p3, p3 + v3.len()) =~= v3);
    assert(t.subrange(p4, p4 + v4.len()) =~= v4);
}

/// The summary of further control channels holds the site and both channels.
pub proof fn further_channel_summaries_hold_their_fields(rfss_id: u8, site_id: u8, channel_a: String, channel_b: String)
    ensures
        ({
            let t = message_text(TsbkMessage::SecondaryControlChannelBroadcast { rfss_id, site_id, channel_a, channel_b });
            let p0 = 22int;
            let v0 = crate::text::decimal(rfss_id as nat);
            let p1 = p0 + v0.len() + 6;
            let v1 = crate::text::decimal(site_id as nat);
            let p2 = p1 + v1.len() + 3;
            let v2 = channel_a@;
            let p3 = p2 + v2.len() + 3;
            let v3 = channel_b@;
            &&& t.subrange(p0, p0 + v0.len()) == v0
            &&& t.subrange(p1, p1 + v1.len()) == v1
            &&& t.subrange(p2, p2 + v2.len()) == v2
            &&& t.subrange(p3, p3 + v3.len()) == v3
        }),
{
    reveal_strlit("SEC_CCH_BROADCST RFSS:");
    reveal_strlit(" SITE:");
    reveal_strlit(" A:");
    reveal_strlit(" B:");
    let t = message_text(TsbkMessage::SecondaryControlChannelBroadcast { rfss_id, site_id, channel_a, channel_b });
    let p0 = 22int;
    let v0 = crate::text::decimal(rfss_id as nat);
    let p1 = p0 + v0.len() + 6;
    let v1 = crate::text::decimal(site_id as nat);
    let p2 = p1 + v1.len() + 3;
    let v2 = channel_a@;
    let p3 = p2 + v2.len() + 3;
    let v3 = channel_b@;
    assert(t.subrange(p0, p0 + v0.len()) =~= v0);
    assert(t.subrange(p1, p1 + v1.len()) =~= v1);
    assert(t.subrange(p2, p2 + v2.len()) =~= v2);
    assert(t.subrange(p3, p3 + v3.len()) =~= v3);
}

/// The summary of the system's clock holds date and time, and says at the end
/// whether it is locked.
pub proof fn clock_summaries_hold_their_fields(year: u16, month: u8, day: u8, hours: u8, minutes: u8, time_locked: bool)
    ensures
        ({
            let t = message_text(TsbkMessage::TdmaSyncBroadcast { year, month, day, hours, minutes, time_locked });
            let p0 = 15int;
            let v0 = crate::text::zero_padded(crate::text::decimal(year as nat), 4);
            let p1 = p0 + v0.len() + 1;
            let v1 = crate::text::zero_padded(crate::text::decimal(month as nat), 2);
            let p2 = p1 + v1.len() + 1;
            let v2 = crate::text::zero_padded(crate::text::decimal(day as nat), 2);
            let p3 = p2 + v2.len() + 1;
            let v3 = crate::text::zero_padded(crate::text::decimal(hours as nat), 2);
            let p4 = p3 + v3.len() + 1;
            let v4 = crate::text::zero_padded(crate::text::decimal(minutes as nat), 2);
            let p5 = p4 + v4.len() + 1;
            let v5 = if time_locked { "LOCKED"@ } else { "UNLOCKED"@ };
            &&& t.subrange(p0, p0 + v0.len()) == v0
            &&& t.subrange(p1, p1 + v1.len()) == v1
            &&& t.subrange(p2, p2 + v2.len()) == v2
            &&& t.subrange(p3, p3 + v3.len()) == v3
            &&& t.subrange(p4, p4 + v4.len()) == v4
            &&& t.subrange(p5, p5 + v5.len()) == v5
        }),
{
    reveal_strlit("TDMA_SYNC_BCST ");
    reveal_strlit("-");
    reveal_strlit(" ");
    reveal_strlit(":");
    let t = message_text(TsbkMessage::TdmaSyncBroadcast { year, month, day, hours, minutes, time_locked });
    let p0 = 15int;
    let v0 = crate::text::zero_padded(crate::text::decimal(year as nat), 4);
    let p1 = p0 + v0.len() + 1;
    let v1 = crate::text::zero_padded(crate::text::decimal(month as nat), 2);
    let p2 = p1 + v1.len() + 1;
    let v2 = crate::text::zero_padded(crate::text::decimal(day as nat), 2);
    let p3 = p2 + v2.len() + 1;
    let v3 = crate::text::zero_padded(crate::text::decimal(hours as nat), 2);
    let p4 = p3 + v3.len() + 1;
    let v4 = crate::text::zero_padded(crate::text::decimal(minutes as nat), 2);
    let p5 = p4 + v4.len() + 1;
    let v5 = if time_locked { "LOCKED"@ } else { "UNLOCKED"@ };
    assert(t.subrange(p0, p0 + v0.len()) =~= v0);
    assert(t.subrange(p1, p1 + v1.len()) =~= v1);
    assert(t.subrange(p2, p2 + v2.len()) =~= v2);
    assert(t.subrange(p3, p3 + v3.len()) =~= v3);
    assert(t.subrange(p4, p4 + v4.len()) =~= v4);
    assert(t.subrange(p5, p5 + v5.len()) =~= v5);
}

/// The summary of a telephone grant holds the unit, the channel and the seconds.
pub proof fn telephone_summaries_hold_their_fields(channel: String, call_timer_secs: u64, unit_id: String)
    ensures
        ({
            let t = message_text(TsbkMessage::TelephoneInterconnectVoiceChannelGrantUpdate { channel, call_timer_secs, unit_id });
            let p0 = 27int;
            let v0 = unit_id@;
            let p1 = p0 + v0.len() + 4;
            let v1 = channel@;
            let p2 = p1 + v1.len() + 7;
            let v2 = crate::text::decimal(call_timer_secs as nat);
            &&& t.subrange(p0, p0 + v0.len()) == v0
            &&& t.subrange(p1, p1 + v1.len()) == v1
            &&& t.subrange(p2, p2 + v2.len()) == v2
            &&& t.skip(p2 + v2.len()) == "s"@
        }),
{
    reveal_strlit("TEL_INT_VCH_GRNT_UPDT UNIT:");
    reveal_strlit(" CH:");
    reveal_strlit(" timer:");
    let t = message_text(TsbkMessage::TelephoneInterconnectVoiceChannelGrantUpdate { channel, call_timer_secs, unit_id });
    let p0 = 27int;
    let v0 = unit_id@;
    let p1 = p0 + v0.len() + 4;
    let v1 = channel@;
    let p2 = p1 + v1.len() + 7;
    let v2 = crate::text::decimal(call_timer_secs as nat);
    assert(t.subrange(p0, p0 + v0.len()) =~= v0);
    assert(t.subrange(p1, p1 + v1.len()) =~= v1);
    assert(t.subrange(p2, p2 + v2.len()) =~= v2);
    assert(t.skip(p2 + v2.len()) =~= "s"@);
}

/// The summary of a request to answer holds the unit asked and the one that asks.
pub proof fn answer_request_summaries_hold_their_fields(target: String, source: String)
    ensures
        ({
            let t = message_text(TsbkMessage::UnitToUnitAnswerRequest { target, source });
            let p0 = 15int;
            let v0 = target@;
            let p1 = p0 + v0.len() + 5;
            let v1 = source@;
            &&& t.subrange(p0, p0 + v0.len()) == v0
            &&& t.subrange(p1, p1 + v1.len()) == v1
        }),
{
    reveal_strlit("UU_ANS_REQ TGT:");
    reveal_strlit(" SRC:");
    let t = message_text(TsbkMessage::UnitToUnitAnswerRequest { target, source });
    let p0 = 15int;
    let v0 = target@;
    let p1 = p0 + v0.len() + 5;
    let v1 = source@;
    assert(t.subrange(p0, p0 + v0.len()) =~= v0);
    assert(t.subrange(p1, p1 + v1.len()) =~= v1);
}

/// The summary of a data channel holds both channels, and names at the end how
/// it may be used.
pub proof fn data_channel_summaries_hold_their_fields(
    downlink_channel: String,
    uplink_channel: String,
    autonomous_access: bool,
    requested_access: bool,
)
    ensures
        ({
            let t = message_text(
                TsbkMessage::SndcpDataChannelAnnouncementExplicit {
                    downlink_channel,
                    uplink_channel,
                    autonomous_access,
                    requested_access,
                },
            );
            let a = downlink_channel@.len() as int;
            let b = uplink_channel@.len() as int;
            let end = t.skip(25 + a + b);
            &&& t.subrange(20, 20 + a) == downlink_channel@
            &&& t.subrange(24 + a, 24 + a + b) == uplink_channel@
            &&& autonomous_access && requested_access ==> end == "AUTO REQ"@
            &&& autonomous_access && !requested_access ==> end == "AUTO "@
            &&& !autonomous_access && requested_access ==> end == "REQ"@
            &&& !autonomous_access && !requested_access ==> end.len() == 0
        }),
{
    reveal_strlit("SNDCP_DCH_ANN_EX DL:");
    reveal_strlit(" UL:");
    reveal_strlit(" ");
    reveal_strlit("AUTO ");
    reveal_strlit("REQ");
    reveal_strlit("AUTO REQ");
    reveal_strlit("");
    let t = message_text(
        TsbkMessage::SndcpDataChannelAnnouncementExplicit {
            downlink_channel,
            uplink_channel,
            autonomous_access,
            requested_access,
        },
    );
    let a = downlink_channel@.len() as int;
    let b = uplink_channel@.len() as int;
    let end = t.skip(25 + a + b);
    assert(t.subrange(20, 20 + a) =~= downlink_channel@);
    assert(t.subrange(24 + a, 24 + a + b) =~= uplink_channel@);
    if autonomous_access && requested_access {
        assert(end =~= "AUTO REQ"@);
    } else if autonomous_access {
        assert(end =~= "AUTO "@);
    } else if requested_access {
        assert(end =~= "REQ"@);
    }
}

/// An opcode was seen as soon as one block of it came, good or bad.
pub proof fn bad_blocks_are_seen_too(ok: Seq<u64>, fail: Seq<u64>, op: int)
    ensures
        was_seen(ok, fail, op) <==> ok[op] + fail[op] > 0,
{
}

proof fn lemma_names_differ(a: u8, b: u8)
    requires
        a < b,
    ensures
        opcode_name(a) != opcode_name(b) || opcode_name(a) == "(unknown)"@,
{
    reveal_strlit("GRP_V_CH_GRANT");
    assert("GRP_V_CH_GRANT"@.len() == 14 && "GRP_V_CH_GRANT"@[0] == 'G' && "GRP_V_CH_GRANT"@[4] == 'V');
    reveal_strlit("GRP_V_CH_GRANT_UPDT");
    assert("GRP_V_CH_GRANT_UPDT"@.len() == 19 && "GRP_V_CH_GRANT_UPDT"@[0] == 'G');
    reveal_strlit("GRP_V_CH_GRANT_UPDT_EXP");
    assert("GRP_V_CH_GRANT_UPDT_EXP"@.len() == 23);
    reveal_strlit("UU_V_CH_GRANT");
    assert("UU_V_CH_GRANT"@.len() == 13 && "UU_V_CH_GRANT"@[0] == 'U');
    reveal_strlit("UU_ANS_REQ");
    assert("UU_ANS_REQ"@.len() == 10 && "UU_ANS_REQ"@[0] == 'U');
    reveal_strlit("UU_V_CH_GRANT_UPDT");
    assert("UU_V_CH_GRANT_UPDT"@.len() == 18);
    reveal_strlit("TELE_INT_V_CH_GRANT");
    assert("TELE_INT_V_CH_GRANT"@.len() == 19 && "TELE_INT_V_CH_GRANT"@[0] == 'T');
    reveal_strlit("TELE_INT_V_CH_GRANT_UPDT");
    assert("TELE_INT_V_CH_GRANT_UPDT"@.len() == 24);
    reveal_strlit("TELE_INT_ANS_REQ");
    assert("TELE_INT_ANS_REQ"@.len() == 16 && "TELE_INT_ANS_REQ"@[0] == 'T');
    reveal_strlit("SNDCP_DCH_GRANT");
    assert("SNDCP_DCH_GRANT"@.len() == 15 && "SNDCP_DCH_GRANT"@[0] == 'S');
    reveal_strlit("SNDCP_DCH_PAG_RQ");
    assert("SNDCP_DCH_PAG_RQ"@.len() == 16 && "SNDCP_DCH_PAG_RQ"@[0] == 'S' && "SNDCP_DCH_PAG_RQ"@[1] == 'N' && "SNDCP_DCH_PAG_RQ"@[10] == 'P');
    reveal_strlit("SNDCP_DCH_ANN_EX");
    assert("SNDCP_DCH_ANN_EX"@.len() == 16 && "SNDCP_DCH_ANN_EX"@[0] == 'S' && "SNDCP_DCH_ANN_EX"@[1] == 'N' && "SNDCP_DCH_ANN_EX"@[10] == 'A');
    reveal_strlit("STS_UPDT");
    assert("STS_UPDT"@.len() == 8 && "STS_UPDT"@[0] == 'S');
    reveal_strlit("MSG_UPDT");
    assert("MSG_UPDT"@.len() == 8 && "MSG_UPDT"@[0] == 'M');
    reveal_strlit("CALL_ALERT");
    assert("CALL_ALERT"@.len() == 10 && "CALL_ALERT"@[0] == 'C');
    reveal_strlit("ACK_RESPONSE_FNE");
    assert("ACK_RESPONSE_FNE"@.len() == 16 && "ACK_RESPONSE_FNE"@[0] == 'A' && "ACK_RESPONSE_FNE"@[1] == 'C');
    reveal_strlit("QUEUED_RESP");
    assert("QUEUED_RESP"@.len() == 11 && "QUEUED_RESP"@[0] == 'Q');
    reveal_strlit("EXT_FNCT_CMD");
    assert("EXT_FNCT_CMD"@.len() == 12 && "EXT_FNCT_CMD"@[0] == 'E');
    reveal_strlit("DENY_RESPONSE");
    assert("DENY_RESPONSE"@.len() == 13 && "DENY_RESPONSE"@[0] == 'D' && "DENY_RESPONSE"@[2] == 'N');
    reveal_strlit("GRP_AFFIL_RESP");
    assert("GRP_AFFIL_RESP"@.len() == 14 && "GRP_AFFIL_RESP"@[0] == 'G' && "GRP_AFFIL_RESP"@[4] == 'A');
    reveal_strlit("SCCB");
    assert("SCCB"@.len() == 4);
    reveal_strlit("RFSS_STS_BCST_EXP");
    assert("RFSS_STS_BCST_EXP"@.len() == 17 && "RFSS_STS_BCST_EXP"@[0] == 'R');
    reveal_strlit("NET_STS_BCST_EXP");
    assert("NET_STS_BCST_EXP"@.len() == 16 && "NET_STS_BCST_EXP"@[0] == 'N' && "NET_STS_BCST_EXP"@[6] == 'S');
    reveal_strlit("ADJ_STS_BCST_EXP");
    assert("ADJ_STS_BCST_EXP"@.len() == 16 && "ADJ_STS_BCST_EXP"@[0] == 'A' && "ADJ_STS_BCST_EXP"@[1] == 'D');
    reveal_strlit("IDEN_UP_VUHF_EXP");
    assert("IDEN_UP_VUHF_EXP"@.len() == 16 && "IDEN_UP_VUHF_EXP"@[0] == 'I' && "IDEN_UP_VUHF_EXP"@[7] == '_');
    reveal_strlit("DENY_RESPONSE_EXP");
    assert("DENY_RESPONSE_EXP"@.len() == 17 && "DENY_RESPONSE_EXP"@[0] == 'D');
    reveal_strlit("DE_REGIST_ACK");
    assert("DE_REGIST_ACK"@.len() == 13 && "DE_REGIST_ACK"@[0] == 'D' && "DE_REGIST_ACK"@[2] == '_');
    reveal_strlit("TDMA_SYNC_BCST");
    assert("TDMA_SYNC_BCST"@.len() == 14 && "TDMA_SYNC_BCST"@[0] == 'T');
    reveal_strlit("AUTH_DMD");
    assert("AUTH_DMD"@.len() == 8 && "AUTH_DMD"@[0] == 'A');
    reveal_strlit("AUTH_FNE_RESULT");
    assert("AUTH_FNE_RESULT"@.len() == 15 && "AUTH_FNE_RESULT"@[0] == 'A');
    reveal_strlit("IDEN_UPDATE_TDMA");
    assert("IDEN_UPDATE_TDMA"@.len() == 16 && "IDEN_UPDATE_TDMA"@[0] == 'I' && "IDEN_UPDATE_TDMA"@[7] == 'D' && "IDEN_UPDATE_TDMA"@[12] == 'T');
    reveal_strlit("IDEN_UPDATE_VUHF");
    assert("IDEN_UPDATE_VUHF"@.len() == 16 && "IDEN_UPDATE_VUHF"@[0] == 'I' && "IDEN_UPDATE_VUHF"@[7] == 'D' && "IDEN_UPDATE_VUHF"@[12] == 'V');
    reveal_strlit("TIME_DATE");
    assert("TIME_DATE"@.len() == 9 && "TIME_DATE"@[0] == 'T');
    reveal_strlit("ROAM_ADDR_CMD");
    assert("ROAM_ADDR_CMD"@.len() == 13 && "ROAM_ADDR_CMD"@[0] == 'R');
    reveal_strlit("SYS_SRV_BCST");
    assert("SYS_SRV_BCST"@.len() == 12 && "SYS_SRV_BCST"@[0] == 'S');
    reveal_strlit("SEC_CCH_BROADCST");
    assert("SEC_CCH_BROADCST"@.len() == 16 && "SEC_CCH_BROADCST"@[0] == 'S' && "SEC_CCH_BROADCST"@[1] == 'E');
    reveal_strlit("RFSS_STATUS_BCST");
    assert("RFSS_STATUS_BCST"@.len() == 16 && "RFSS_STATUS_BCST"@[0] == 'R');
    reveal_strlit("NET_STATUS_BCAST");
    assert("NET_STATUS_BCAST"@.len() == 16 && "NET_STATUS_BCAST"@[0] == 'N' && "NET_STATUS_BCAST"@[6] == 'A');
    reveal_strlit("ADJ_STS_BCAST");
    assert("ADJ_STS_BCAST"@.len() == 13 && "ADJ_STS_BCAST"@[0] == 'A');
    reveal_strlit("IDEN_UPDATE");
    assert("IDEN_UPDATE"@.len() == 11 && "IDEN_UPDATE"@[0] == 'I');
    reveal_strlit("PROT_PARAM_BCST");
    assert("PROT_PARAM_BCST"@.len() == 15 && "PROT_PARAM_BCST"@[0] == 'P' && "PROT_PARAM_BCST"@[11] == 'B');
    reveal_strlit("PROT_PARAM_UPDT");
    assert("PROT_PARAM_UPDT"@.len() == 15 && "PROT_PARAM_UPDT"@[0] == 'P' && "PROT_PARAM_UPDT"@[11] == 'U');
    reveal_strlit("(unknown)");
    assert("(unknown)"@.len() == 9 && "(unknown)"@[0] == '(');
}

/// No two opcodes have the same name.
pub proof fn opcodes_have_their_own_names(a: u8, b: u8)
    requires
        opcode_name(a) == opcode_name(b),
    ensures
        a == b || opcode_name(a) == "(unknown)"@,
{
    if a < b {
        lemma_names_differ(a, b);
    } else if b < a {
        lemma_names_differ(b, a);
    }
}

} // verus!
