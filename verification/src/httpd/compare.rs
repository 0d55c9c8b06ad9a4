//! The decoders side by side.

use vstd::prelude::*;
use crate::runtime::HdlLsmRuntime;

verus! {

/// Counters of a frame decoder. The NAC is as it is shown.
pub struct DecoderCounters {
    pub system_nac: Option<String>,
    pub messages: usize,
    pub active_grants: usize,
    pub bands_known: usize,
    pub sync_hits: u64,
    pub sync_near: u64,
    /// The best distance to the sync pattern; the largest number before the
    /// first observation.
    pub best_sync_distance: u32,
    pub total_dibits: u64,
    pub pipeline: PipelineCounters,
}

/// Counters along the way from a frame to its messages.
#[derive(Debug, Clone, Copy, PartialEq, Eq, Structural)]
pub struct PipelineCounters {
    pub nid_attempts: u64,
    pub nid_decode_failures: u64,
    pub nid_invalid_duid: u64,
    pub nid_decoded_ok: u64,
    pub nid_decoded_tsdu: u64,
    pub tsdu_attempts: u64,
    pub tsbk_block_attempts: u64,
    pub tsbk_trellis_failures: u64,
    pub tsbk_crc_failures: u64,
    pub tsbk_crc_ok: u64,
    pub tsbk_crc_ok_plain: u64,
    pub tsbk_crc_ok_xored: u64,
    pub tsbk_unknown_opcode: u64,
}

/// What is shown of a frame decoder.
pub struct DecoderColumn {
    pub label: &'static str,
    pub counters: DecoderCounters,
    /// The best distance to the sync pattern, once one was observed.
    pub sync_best_dist: Option<u32>,
}

/// What is shown of the chain in the logic.
pub struct ChainColumn {
    pub label: &'static str,
    /// The NAC with the most hits, or dashes.
    pub winner_nac: String,
    pub total_nids: u64,
    pub valid_nids: u64,
    pub drop_count: u16,
    pub pll_dbg: i16,
    pub sp_dbg: i16,
    pub sync_distance: u8,
    pub dibit_overflow_ticks: u64,
    pub iq_overflow_ticks: u64,
}

/// The decoders side by side.
pub struct CompareReport {
    pub ps_c4fm: DecoderColumn,
    pub ps_lsm: DecoderColumn,
    pub pl_hdl: ChainColumn,
}

/// Whether a column shows a decoder under a label.
pub open spec fn shows_decoder(
    column: DecoderColumn,
    label: Seq<char>,
    counters: DecoderCounters,
) -> bool {
    &&& column.label@ == label
    &&& column.counters == counters
    &&& column.sync_best_dist == if counters.best_sync_distance == u32::MAX {
        None::<u32>
    } else {
        Some(counters.best_sync_distance)
    }
}

fn column_of(label: &'static str, counters: DecoderCounters) -> (column: DecoderColumn)
    ensures
        shows_decoder(column, label@, counters),
{
    let sync_best_dist: Option<u32> = if counters.best_sync_distance == u32::MAX {
        None
    } else {
        Some(counters.best_sync_distance)
    };
    DecoderColumn { label, counters, sync_best_dist }
}

/// Show the C4FM decoder, the LSM decoder and the chain in the logic side by
/// side.
pub fn decoder_compare(c4fm: DecoderCounters, lsm: DecoderCounters, chain: &HdlLsmRuntime) -> (r:
    CompareReport)
    ensures
        shows_decoder(
            r.ps_c4fm,
            "PS C4FM (software, HDL C4FM dibit-fed — DORMANT on LSM sites)"@,
            c4fm,
        ),
        shows_decoder(
            r.ps_lsm,
            "PS LSM framer (software framer on HDL LSM dibits — production)"@,
            lsm,
        ),
        r.pl_hdl.label@ == "PL HDL LSM chain (FPGA gateware)"@,
        chain.nac_hist@.dom().len() == 0 ==> r.pl_hdl.winner_nac@ == "--"@,
        chain.nac_hist@.dom().len() > 0 ==> exists|top: Seq<(u16, u64)>| #[trigger]
            crate::runtime::are_top(top, chain.nac_hist@, 1) && r.pl_hdl.winner_nac@
                == crate::runtime::nac_text(top[0].0),
        r.pl_hdl.total_nids == chain.total_nid_events,
        r.pl_hdl.valid_nids == chain.valid_nid_events,
        r.pl_hdl.drop_count == chain.live.last_drop_count,
        r.pl_hdl.pll_dbg == chain.live.pll_dbg,
        r.pl_hdl.sp_dbg == chain.live.sp_dbg,
        r.pl_hdl.sync_distance == chain.live.sync_distance,
        r.pl_hdl.dibit_overflow_ticks == chain.dibit_overflow_ticks,
        r.pl_hdl.iq_overflow_ticks == chain.iq_overflow_ticks,
{
    CompareReport {
        ps_c4fm: column_of(
            "PS C4FM (software, HDL C4FM dibit-fed — DORMANT on LSM sites)",
            c4fm,
        ),
        ps_lsm: column_of("PS LSM framer (software framer on HDL LSM dibits — production)", lsm),
        pl_hdl: ChainColumn {
            label: "PL HDL LSM chain (FPGA gateware)",
            winner_nac: chain.winner_nac(),
            total_nids: chain.total_nid_events,
            valid_nids: chain.valid_nid_events,
            drop_count: chain.live.last_drop_count,
            pll_dbg: chain.live.pll_dbg,
            sp_dbg: chain.live.sp_dbg,
            sync_distance: chain.live.sync_distance,
            dibit_overflow_ticks: chain.dibit_overflow_ticks,
            iq_overflow_ticks: chain.iq_overflow_ticks,
        },
    }
}

/// A column carries the counters of its decoder, and a best distance exactly
/// when one was observed.
pub proof fn columns_carry_their_counters(
    column: DecoderColumn,
    label: Seq<char>,
    counters: DecoderCounters,
)
    requires
        shows_decoder(column, label, counters),
    ensures
        column.label@ == label,
        column.counters == counters,
        column.sync_best_dist is Some <==> counters.best_sync_distance != 0xFFFF_FFFF,
        column.sync_best_dist matches Some(d) ==> d == counters.best_sync_distance,
{
}

} // verus!
