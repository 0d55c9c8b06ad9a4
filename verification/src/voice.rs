//! Voice frames on their way to the vocoder.

use vstd::prelude::*;
use crate::clock::elapsed_ns;
use crate::slices::push_bounded;
use crate::text::append_decimal;
use std::collections::HashSet;

verus! {

broadcast use vstd::std_specs::hash::group_hash_axioms;

/// Voice frames kept for inspection.
pub const IMBE_RING_DEPTH: usize = 128;

/// Voice frames in one data unit.
pub const FRAMES_PER_LDU: u64 = 9;

/// Samples that the vocoder makes of one frame.
pub const SAMPLES_PER_FRAME: u64 = 160;

/// One voice frame as it was received.
#[derive(Debug, Clone, Copy)]
pub struct ImbeFrameRaw {
    pub bits: [u8; 18],
}

/// One voice frame kept for inspection.
#[derive(Debug, Clone, Copy)]
pub struct ImbeRecord {
    pub talkgroup: u16,
    pub encrypted: bool,
    pub bits: [u8; 18],
}

/// Counts data units of the traffic channel and passes voice frames on. Counts
/// wrap around.
pub struct ImbeForwarder {
    pub hdu_count: u64,
    pub ldu1_count: u64,
    pub ldu2_count: u64,
    pub tdu_count: u64,
    pub tdu_lc_count: u64,
    pub imbe_frames_extracted: u64,
    /// Frames that the vocoder had no room for.
    pub imbe_frames_dropped: u64,
    /// Frames that came while no call was followed.
    pub imbe_frames_dropped_idle: u64,
    pub last_imbe_at_millis: u64,
    pub vocoder_pcm_produced: u64,
    pub vocoder_errors: u64,
    pub vocoder_frames_encrypted: u64,
    /// Whether the call that is followed is encrypted.
    pub call_encrypted: bool,
    /// The talkgroup that is followed, zero for none.
    pub current_talkgroup: u16,
    /// Talkgroups that were ever seen encrypted.
    pub encrypted_tg_history: HashSet<u16>,
    /// Whether a new call began that the vocoder has not heard of.
    pub vocoder_reset_pending: bool,
    /// The last voice frames, oldest first.
    pub imbe_ring: Vec<ImbeRecord>,
}

/// The counts of a forwarder.
#[derive(Debug, Clone, Copy, PartialEq, Eq, Structural)]
pub struct VoiceCounts {
    pub hdu: u64,
    pub ldu1: u64,
    pub ldu2: u64,
    pub tdu: u64,
    pub tdu_lc: u64,
    pub extracted: u64,
    pub dropped: u64,
    pub dropped_idle: u64,
    pub last_at_millis: u64,
    pub pcm_produced: u64,
    pub errors: u64,
    pub frames_encrypted: u64,
}

/// `n + by`, modulo 2^64.
pub open spec fn wrapped(n: u64, by: u64) -> u64 {
    if n + by > u64::MAX {
        (n + by - 0x1_0000_0000_0000_0000) as u64
    } else {
        (n + by) as u64
    }
}

/// Whether the frames extracted are nine for each voice unit, modulo 2^64.
pub open spec fn in_balance(c: VoiceCounts) -> bool {
    (c.extracted - 9 * (c.ldu1 + c.ldu2)) % 0x1_0000_0000_0000_0000 == 0
}

/// Another voice unit brings nine frames, also where a count wraps around.
pub proof fn every_voice_unit_holds_nine_frames(c: VoiceCounts)
    requires
        in_balance(c),
    ensures
        in_balance(
            VoiceCounts {
                ldu1: wrapped(c.ldu1, 1),
                extracted: wrapped(c.extracted, 9),
                ..c
            },
        ),
        in_balance(
            VoiceCounts {
                ldu2: wrapped(c.ldu2, 1),
                extracted: wrapped(c.extracted, 9),
                ..c
            },
        ),
{
}

/// The frames as they are kept.
pub open spec fn tagged(frames: Seq<ImbeFrameRaw>, talkgroup: u16, encrypted: bool) -> Seq<ImbeRecord> {
    Seq::new(
        frames.len(),
        |i: int| ImbeRecord { talkgroup, encrypted, bits: frames[i].bits },
    )
}

impl ImbeForwarder {
    /// All counts.
    pub open spec fn counts(self) -> VoiceCounts {
        VoiceCounts {
            hdu: self.hdu_count,
            ldu1: self.ldu1_count,
            ldu2: self.ldu2_count,
            tdu: self.tdu_count,
            tdu_lc: self.tdu_lc_count,
            extracted: self.imbe_frames_extracted,
            dropped: self.imbe_frames_dropped,
            dropped_idle: self.imbe_frames_dropped_idle,
            last_at_millis: self.last_imbe_at_millis,
            pcm_produced: self.vocoder_pcm_produced,
            errors: self.vocoder_errors,
            frames_encrypted: self.vocoder_frames_encrypted,
        }
    }

    /// The ring holds no more than its depth.
    pub open spec fn wf(self) -> bool {
        self.imbe_ring@.len() <= IMBE_RING_DEPTH
    }

    /// Whether the two follow the same call: talkgroup, encryption, history
    /// and pending reset.
    pub open spec fn same_call(self, other: ImbeForwarder) -> bool {
        &&& self.call_encrypted == other.call_encrypted
        &&& self.current_talkgroup == other.current_talkgroup
        &&& self.encrypted_tg_history@ == other.encrypted_tg_history@
        &&& self.vocoder_reset_pending == other.vocoder_reset_pending
    }

    /// Nothing counted, no call followed.
    pub fn new() -> (f: ImbeForwarder)
        ensures
            f.wf(),
            f.counts() == (VoiceCounts {
                hdu: 0,
                ldu1: 0,
                ldu2: 0,
                tdu: 0,
                tdu_lc: 0,
                extracted: 0,
                dropped: 0,
                dropped_idle: 0,
                last_at_millis: 0,
                pcm_produced: 0,
                errors: 0,
                frames_encrypted: 0,
            }),
            !f.call_encrypted,
            f.current_talkgroup == 0,
            f.encrypted_tg_history@ == Set::<u16>::empty(),
            !f.vocoder_reset_pending,
            f.imbe_ring@ == Seq::<ImbeRecord>::empty(),
    {
        ImbeForwarder {
            hdu_count: 0,
            ldu1_count: 0,
            ldu2_count: 0,
            tdu_count: 0,
            tdu_lc_count: 0,
            imbe_frames_extracted: 0,
            imbe_frames_dropped: 0,
            imbe_frames_dropped_idle: 0,
            last_imbe_at_millis: 0,
            vocoder_pcm_produced: 0,
            vocoder_errors: 0,
            vocoder_frames_encrypted: 0,
            call_encrypted: false,
            current_talkgroup: 0,
            encrypted_tg_history: HashSet::new(),
            vocoder_reset_pending: false,
            imbe_ring: Vec::new(),
        }
    }

    fn touch_imbe(&mut self, n_frames: u64, now_millis: u64)
        ensures
            final(self).counts() == (VoiceCounts {
                extracted: wrapped(old(self).imbe_frames_extracted, n_frames),
                last_at_millis: now_millis,
                ..old(self).counts()
            }),
            final(self).same_call(*old(self)),
            final(self).imbe_ring == old(self).imbe_ring,
    {
        self.imbe_frames_extracted = self.imbe_frames_extracted.wrapping_add(n_frames);
        self.last_imbe_at_millis = now_millis;
    }

    /// Keep the nine frames for inspection, and say whether they go to the
    /// vocoder: not while no call is followed.
    pub fn forward_frames(&mut self, frames: &[ImbeFrameRaw; 9]) -> (send: bool)
        requires
            old(self).wf(),
        ensures
            final(self).wf(),
            final(self).imbe_ring@ == crate::slices::keep_last(
                old(self).imbe_ring@ + tagged(
                    frames@,
                    old(self).current_talkgroup,
                    old(self).call_encrypted,
                ),
                128,
            ),
            send == (old(self).current_talkgroup != 0),
            final(self).counts() == (VoiceCounts {
                dropped_idle: if send {
                    old(self).imbe_frames_dropped_idle
                } else {
                    wrapped(old(self).imbe_frames_dropped_idle, 9)
                },
                ..old(self).counts()
            }),
            final(self).same_call(*old(self)),
    {
        let tg: u16 = self.current_talkgroup;
        let enc: bool = self.call_encrypted;
        let ghost ring = self.imbe_ring@;
        let ghost all = tagged(frames@, tg, enc);
        let ghost before = *self;
        let mut i: usize = 0;
        assert(ring + all.take(0) =~= ring);
        while i < 9
            invariant
                i <= 9,
                all == tagged(frames@, tg, enc),
                self.imbe_ring@.len() <= IMBE_RING_DEPTH,
                self.imbe_ring@ == crate::slices::keep_last(ring + all.take(i as int), 128),
                self.counts() == before.counts(),
                self.same_call(before),
            decreases 9 - i,
        {
            let record = ImbeRecord { talkgroup: tg, encrypted: enc, bits: frames[i].bits };
            push_bounded(&mut self.imbe_ring, record, IMBE_RING_DEPTH);
            proof {
                let so_far = ring + all.take(i as int);
                assert(record == all[i as int]);
                crate::slices::keeping_the_last_in_steps(so_far, seq![record], 128);
                assert(crate::slices::keep_last(so_far, 128).push(record)
                    =~= crate::slices::keep_last(so_far, 128) + seq![record]);
                assert(so_far + seq![record] =~= ring + all.take(i + 1));
            }
            i = i + 1;
        }
        assert(all.take(9) =~= all);
        if tg == 0 {
            self.imbe_frames_dropped_idle = self.imbe_frames_dropped_idle.wrapping_add(
                FRAMES_PER_LDU,
            );
            return false;
        }
        true
    }

    /// The vocoder had no room for the frames, or is gone.
    pub fn note_not_sent(&mut self)
        ensures
            final(self).counts() == (VoiceCounts {
                dropped: wrapped(old(self).imbe_frames_dropped, 9),
                ..old(self).counts()
            }),
            final(self).same_call(*old(self)),
            final(self).imbe_ring == old(self).imbe_ring,
    {
        self.imbe_frames_dropped = self.imbe_frames_dropped.wrapping_add(FRAMES_PER_LDU);
    }

    /// A first voice unit arrived. The result says whether its frames go to
    /// the vocoder.
    pub fn on_ldu1(&mut self, frames: &[ImbeFrameRaw; 9], now_millis: u64) -> (send: bool)
        requires
            old(self).wf(),
        ensures
            final(self).wf(),
            final(self).imbe_ring@ == crate::slices::keep_last(
                old(self).imbe_ring@ + tagged(
                    frames@,
                    old(self).current_talkgroup,
                    old(self).call_encrypted,
                ),
                128,
            ),
            send == (old(self).current_talkgroup != 0),
            final(self).counts() == (VoiceCounts {
                ldu1: wrapped(old(self).ldu1_count, 1),
                extracted: wrapped(old(self).imbe_frames_extracted, 9),
                last_at_millis: now_millis,
                dropped_idle: if send {
                    old(self).imbe_frames_dropped_idle
                } else {
                    wrapped(old(self).imbe_frames_dropped_idle, 9)
                },
                ..old(self).counts()
            }),
            in_balance(old(self).counts()) ==> in_balance(final(self).counts()),
            final(self).same_call(*old(self)),
    {
        proof {
            if in_balance(self.counts()) {
                every_voice_unit_holds_nine_frames(self.counts());
            }
        }
        self.ldu1_count = self.ldu1_count.wrapping_add(1);
        self.touch_imbe(FRAMES_PER_LDU, now_millis);
        self.forward_frames(frames)
    }

    /// A second voice unit arrived. The result says whether its frames go to
    /// the vocoder.
    pub fn on_ldu2(&mut self, frames: &[ImbeFrameRaw; 9], now_millis: u64) -> (send: bool)
        requires
            old(self).wf(),
        ensures
            final(self).wf(),
            final(self).imbe_ring@ == crate::slices::keep_last(
                old(self).imbe_ring@ + tagged(
                    frames@,
                    old(self).current_talkgroup,
                    old(self).call_encrypted,
                ),
                128,
            ),
            send == (old(self).current_talkgroup != 0),
            final(self).counts() == (VoiceCounts {
                ldu2: wrapped(old(self).ldu2_count, 1),
                extracted: wrapped(old(self).imbe_frames_extracted, 9),
                last_at_millis: now_millis,
                dropped_idle: if send {
                    old(self).imbe_frames_dropped_idle
                } else {
                    wrapped(old(self).imbe_frames_dropped_idle, 9)
                },
                ..old(self).counts()
            }),
            in_balance(old(self).counts()) ==> in_balance(final(self).counts()),
            final(self).same_call(*old(self)),
    {
        proof {
            if in_balance(self.counts()) {
                every_voice_unit_holds_nine_frames(self.counts());
            }
        }
        self.ldu2_count = self.ldu2_count.wrapping_add(1);
        self.touch_imbe(FRAMES_PER_LDU, now_millis);
        self.forward_frames(frames)
    }

    /// A header unit arrived.
    pub fn on_hdu(&mut self)
        ensures
            final(self).counts() == (VoiceCounts {
                hdu: wrapped(old(self).hdu_count, 1),
                ..old(self).counts()
            }),
            final(self).same_call(*old(self)),
            final(self).imbe_ring == old(self).imbe_ring,
    {
        self.hdu_count = self.hdu_count.wrapping_add(1);
    }

    /// A terminator arrived.
    pub fn on_tdu(&mut self)
        ensures
            final(self).counts() == (VoiceCounts {
                tdu: wrapped(old(self).tdu_count, 1),
                ..old(self).counts()
            }),
            final(self).same_call(*old(self)),
            final(self).imbe_ring == old(self).imbe_ring,
    {
        self.tdu_count = self.tdu_count.wrapping_add(1);
    }

    /// A terminator with link control arrived.
    pub fn on_tdu_lc(&mut self)
        ensures
            final(self).counts() == (VoiceCounts {
                tdu_lc: wrapped(old(self).tdu_lc_count, 1),
                ..old(self).counts()
            }),
            final(self).same_call(*old(self)),
            final(self).imbe_ring == old(self).imbe_ring,
    {
        self.tdu_lc_count = self.tdu_lc_count.wrapping_add(1);
    }
}

// ---------------------------------------------------------------------------
// Calls as the vocoder sees them
// ---------------------------------------------------------------------------

/// A call that is over.
#[derive(Debug, Clone, Copy, PartialEq, Eq, Structural)]
pub struct CallSummary {
    pub tg: u16,
    pub frames_in: u32,
    pub frames_skipped_enc: u32,
    pub pcm_samples: u64,
    /// Milliseconds from the start of the call to its last decoded frame.
    pub duration_ms: u64,
}

/// The line for a call that is over.
pub open spec fn call_end_line(c: CallSummary) -> Seq<char> {
    "call_end TG="@ + crate::text::decimal(c.tg as nat) + " frames="@ + crate::text::decimal(
        c.frames_in as nat,
    ) + " pcm="@ + crate::text::decimal(c.pcm_samples as nat) + " ("@ + crate::text::decimal(
        c.duration_ms as nat,
    ) + " ms)"@ + (if c.frames_skipped_enc > 0 {
        " enc_skipped="@ + crate::text::decimal(c.frames_skipped_enc as nat)
    } else {
        Seq::<char>::empty()
    })
}

impl CallSummary {
    /// The line for the log.
    pub fn message(&self) -> (s: String)
        ensures
            s@ == call_end_line(*self),
    {
        let mut s = "call_end TG=".to_owned();
        append_decimal(&mut s, self.tg as u64);
        s.append(" frames=");
        append_decimal(&mut s, self.frames_in as u64);
        s.append(" pcm=");
        append_decimal(&mut s, self.pcm_samples);
        s.append(" (");
        append_decimal(&mut s, self.duration_ms);
        s.append(" ms)");
        let ghost head = s@;
        if self.frames_skipped_enc > 0 {
            s.append(" enc_skipped=");
            append_decimal(&mut s, self.frames_skipped_enc as u64);
        }
        assert(s@ =~= call_end_line(*self));
        s
    }
}

/// The line for a call that begins.
pub fn call_start_line(tg: u16) -> (s: String)
    ensures
        s@ == "call_start TG="@ + crate::text::decimal(tg as nat),
{
    let mut s = "call_start TG=".to_owned();
    append_decimal(&mut s, tg as u64);
    s
}

/// The call that the vocoder is at. Times are nanoseconds on one clock.
#[derive(Debug, Clone, Copy, PartialEq, Eq, Structural)]
pub struct CallTracker {
    pub tg: u16,
    pub frames_in: u32,
    pub frames_skipped_enc: u32,
    pub pcm_samples: u64,
    pub started: Option<u64>,
    pub last_frame_at: Option<u64>,
    /// Number of the next chunk of audio.
    pub seq: u64,
}

/// What the vocoder does with a batch of frames.
#[derive(Debug, Clone, Copy, PartialEq, Eq, Structural)]
pub struct BatchPlan {
    /// The call that the batch ends.
    pub ended: Option<CallSummary>,
    /// The talkgroup of the call that the batch announces. The decoder is
    /// reset.
    pub announced: Option<u16>,
    /// The talkgroup to decode the frames for; `None` to skip them.
    pub decode: Option<u16>,
}

/// What is said of a call when it is over; nothing if it had no frame.
pub open spec fn summary_of(c: CallTracker) -> Option<CallSummary> {
    if c.frames_in == 0 && c.frames_skipped_enc == 0 {
        None
    } else {
        Some(
            CallSummary {
                tg: c.tg,
                frames_in: c.frames_in,
                frames_skipped_enc: c.frames_skipped_enc,
                pcm_samples: c.pcm_samples,
                duration_ms: match (c.started, c.last_frame_at) {
                    (Some(s), Some(l)) => crate::clock::elapsed(s, l) / 1_000_000,
                    _ => 0,
                },
            },
        )
    }
}

/// A call of `tg` that begins at `now`.
pub open spec fn call_begun(c: CallTracker, tg: u16, now: u64) -> CallTracker {
    CallTracker {
        tg,
        frames_in: 0,
        frames_skipped_enc: 0,
        pcm_samples: 0,
        started: Some(now),
        last_frame_at: None,
        seq: c.seq,
    }
}

/// Whether a batch for `tg` ends the call without an announcement: another
/// talkgroup, while a call is on.
pub open spec fn changes_call(c: CallTracker, tg: u16) -> bool {
    tg != c.tg && (c.frames_in > 0 || c.started is Some)
}

impl CallTracker {
    /// Every decoded frame gave its samples, and the last frame has a time
    /// once there is one.
    pub open spec fn wf(self) -> bool {
        &&& self.pcm_samples == 160 * self.frames_in
        &&& self.last_frame_at is Some <==> self.frames_in > 0
    }

    /// No call yet.
    pub fn new() -> (c: CallTracker)
        ensures
            c.wf(),
            c == (CallTracker {
                tg: 0,
                frames_in: 0,
                frames_skipped_enc: 0,
                pcm_samples: 0,
                started: None,
                last_frame_at: None,
                seq: 0,
            }),
    {
        CallTracker {
            tg: 0,
            frames_in: 0,
            frames_skipped_enc: 0,
            pcm_samples: 0,
            started: None,
            last_frame_at: None,
            seq: 0,
        }
    }

    fn summary(&self) -> (s: Option<CallSummary>)
        ensures
            s == summary_of(*self),
    {
        if self.frames_in == 0 && self.frames_skipped_enc == 0 {
            return None;
        }
        let duration_ms: u64 = match (self.started, self.last_frame_at) {
            (Some(s), Some(l)) => elapsed_ns(s, l) / 1_000_000,
            _ => 0,
        };
        Some(
            CallSummary {
                tg: self.tg,
                frames_in: self.frames_in,
                frames_skipped_enc: self.frames_skipped_enc,
                pcm_samples: self.pcm_samples,
                duration_ms,
            },
        )
    }

    fn begin(&mut self, tg: u16, now: u64)
        ensures
            *final(self) == call_begun(*old(self), tg, now),
    {
        self.tg = tg;
        self.frames_in = 0;
        self.frames_skipped_enc = 0;
        self.pcm_samples = 0;
        self.started = Some(now);
        self.last_frame_at = None;
    }

    /// A batch of nine frames arrived at `now`. An announced call ends the one
    /// before; frames of an encrypted call are counted and skipped; another
    /// talkgroup ends the call, too.
    pub fn on_batch(&mut self, forwarder: &mut ImbeForwarder, now: u64) -> (plan: BatchPlan)
        requires
            old(self).wf(),
            old(self).frames_skipped_enc + 9 <= u32::MAX,
        ensures
            final(self).wf(),
            ({
                let tg = old(forwarder).current_talkgroup;
                let reset = old(forwarder).vocoder_reset_pending;
                let skip = old(forwarder).call_encrypted;
                let at = if reset {
                    call_begun(*old(self), tg, now)
                } else {
                    *old(self)
                };
                &&& plan.announced == if reset {
                    Some(tg)
                } else {
                    None
                }
                &&& plan.decode == if skip {
                    None
                } else {
                    Some(tg)
                }
                &&& plan.ended == if reset {
                    summary_of(*old(self))
                } else if !skip && changes_call(at, tg) {
                    summary_of(at)
                } else {
                    None
                }
                &&& *final(self) == if skip {
                    CallTracker { frames_skipped_enc: (at.frames_skipped_enc + 9) as u32, ..at }
                } else if changes_call(at, tg) {
                    call_begun(at, tg, now)
                } else {
                    at
                }
                &&& final(forwarder).counts() == (VoiceCounts {
                    frames_encrypted: if skip {
                        wrapped(old(forwarder).vocoder_frames_encrypted, 9)
                    } else {
                        old(forwarder).vocoder_frames_encrypted
                    },
                    ..old(forwarder).counts()
                })
            }),
            !final(forwarder).vocoder_reset_pending,
            final(forwarder).call_encrypted == old(forwarder).call_encrypted,
            final(forwarder).current_talkgroup == old(forwarder).current_talkgroup,
            final(forwarder).encrypted_tg_history@ == old(forwarder).encrypted_tg_history@,
            final(forwarder).imbe_ring@ == old(forwarder).imbe_ring@,
    {
        let tg: u16 = forwarder.current_talkgroup;
        let mut ended: Option<CallSummary> = None;
        let mut announced: Option<u16> = None;
        if forwarder.vocoder_reset_pending {
            forwarder.vocoder_reset_pending = false;
            ended = self.summary();
            self.begin(tg, now);
            announced = Some(tg);
        }
        if forwarder.call_encrypted {
            forwarder.vocoder_frames_encrypted = forwarder.vocoder_frames_encrypted.wrapping_add(
                FRAMES_PER_LDU,
            );
            self.frames_skipped_enc = self.frames_skipped_enc + 9;
            return BatchPlan { ended, announced, decode: None };
        }
        if tg != self.tg && (self.frames_in > 0 || self.started.is_some()) {
            ended = self.summary();
            self.begin(tg, now);
        }
        BatchPlan { ended, announced, decode: Some(tg) }
    }

    /// One frame was decoded at `now`. The result is the number of its chunk
    /// of audio.
    pub fn on_frame(&mut self, forwarder: &mut ImbeForwarder, now: u64) -> (seq: u64)
        requires
            old(self).wf(),
            old(self).frames_in < u32::MAX,
            old(self).seq < u64::MAX,
        ensures
            final(self).wf(),
            seq == old(self).seq,
            *final(self) == (CallTracker {
                frames_in: (old(self).frames_in + 1) as u32,
                pcm_samples: (old(self).pcm_samples + 160) as u64,
                last_frame_at: Some(now),
                seq: (old(self).seq + 1) as u64,
                ..*old(self)
            }),
            final(forwarder).counts() == (VoiceCounts {
                pcm_produced: wrapped(old(forwarder).vocoder_pcm_produced, 160),
                ..old(forwarder).counts()
            }),
            final(forwarder).same_call(*old(forwarder)),
            final(forwarder).imbe_ring == old(forwarder).imbe_ring,
    {
        forwarder.vocoder_pcm_produced = forwarder.vocoder_pcm_produced.wrapping_add(
            SAMPLES_PER_FRAME,
        );
        let seq: u64 = self.seq;
        self.frames_in = self.frames_in + 1;
        self.pcm_samples = self.pcm_samples + SAMPLES_PER_FRAME;
        self.last_frame_at = Some(now);
        self.seq = seq + 1;
        seq
    }
}

/// Counts wrap around: the new count is the old one and what is added, modulo
/// 2^64.
pub proof fn counts_wrap_around(n: u64, by: u64)
    ensures
        (wrapped(n, by) - n - by) % 0x1_0000_0000_0000_0000 == 0,
        n + by <= u64::MAX ==> wrapped(n, by) == n + by,
{
}

/// Every frame is kept with its bits, under the talkgroup and the encryption mark
/// of the call, in the order in which the frames came.
pub proof fn frames_are_kept_as_they_came(
    frames: Seq<ImbeFrameRaw>,
    talkgroup: u16,
    encrypted: bool,
    i: int,
)
    requires
        0 <= i < frames.len(),
    ensures
        tagged(frames, talkgroup, encrypted).len() == frames.len(),
        tagged(frames, talkgroup, encrypted)[i].bits == frames[i].bits,
        tagged(frames, talkgroup, encrypted)[i].talkgroup == talkgroup,
        tagged(frames, talkgroup, encrypted)[i].encrypted == encrypted,
{
}

/// The two follow the same call only where talkgroup, encryption, history and
/// pending reset agree.
pub proof fn same_calls_agree(a: ImbeForwarder, b: ImbeForwarder)
    requires
        a.same_call(b),
    ensures
        a.call_encrypted == b.call_encrypted,
        a.current_talkgroup == b.current_talkgroup,
        a.encrypted_tg_history@ == b.encrypted_tg_history@,
        a.vocoder_reset_pending == b.vocoder_reset_pending,
{
}

/// Each count is the forwarder's own.
pub proof fn counts_are_the_forwarders(f: ImbeForwarder)
    ensures
        f.counts().hdu == f.hdu_count,
        f.counts().ldu1 == f.ldu1_count,
        f.counts().ldu2 == f.ldu2_count,
        f.counts().tdu == f.tdu_count,
        f.counts().tdu_lc == f.tdu_lc_count,
        f.counts().extracted == f.imbe_frames_extracted,
        f.counts().dropped == f.imbe_frames_dropped,
        f.counts().dropped_idle == f.imbe_frames_dropped_idle,
        f.counts().last_at_millis == f.last_imbe_at_millis,
        f.counts().pcm_produced == f.vocoder_pcm_produced,
        f.counts().errors == f.vocoder_errors,
        f.counts().frames_encrypted == f.vocoder_frames_encrypted,
{
}

/// A call with any frame, decoded or skipped, is summed up with its talkgroup,
/// its frames and its samples; a call without one is passed over in silence.
pub proof fn calls_with_frames_are_summed_up(c: CallTracker)
    ensures
        summary_of(c) is Some <==> c.frames_in > 0 || c.frames_skipped_enc > 0,
        summary_of(c) matches Some(s) ==> {
            &&& s.tg == c.tg
            &&& s.frames_in == c.frames_in
            &&& s.frames_skipped_enc == c.frames_skipped_enc
            &&& s.pcm_samples == c.pcm_samples
        },
        c.wf() ==> (summary_of(c) matches Some(s) ==> s.pcm_samples == 160 * s.frames_in),
{
}

/// The duration of a call runs from its start to its last decoded frame, in whole
/// milliseconds, however long the silence after it; without a decoded frame it is
/// zero.
pub proof fn calls_last_until_their_last_frame(c: CallTracker, from: u64, to: u64)
    requires
        summary_of(c) is Some,
    ensures
        c.started == Some(from) && c.last_frame_at == Some(to) && from <= to ==> {
            &&& summary_of(c)->0.duration_ms * 1_000_000 <= to - from
            &&& to - from < (summary_of(c)->0.duration_ms + 1) * 1_000_000
        },
        c.started is None || c.last_frame_at is None ==> summary_of(c)->0.duration_ms == 0,
{
}

/// A call begins with nothing counted, at its own time and for its talkgroup; the
/// numbering of the audio goes on.
pub proof fn calls_begin_empty(c: CallTracker, tg: u16, now: u64)
    ensures
        call_begun(c, tg, now).tg == tg,
        call_begun(c, tg, now).started == Some(now),
        call_begun(c, tg, now).frames_in == 0,
        call_begun(c, tg, now).frames_skipped_enc == 0,
        call_begun(c, tg, now).pcm_samples == 0,
        call_begun(c, tg, now).last_frame_at is None,
        call_begun(c, tg, now).seq == c.seq,
        summary_of(call_begun(c, tg, now)) is None,
{
}

/// Frames of the same talkgroup never end a call; frames of another one end a
/// call that is on, that is one that has begun or has a frame.
pub proof fn another_talkgroup_ends_the_call(c: CallTracker, tg: u16)
    ensures
        !changes_call(c, c.tg),
        tg != c.tg && c.started is Some ==> changes_call(c, tg),
        tg != c.tg && c.frames_in > 0 ==> changes_call(c, tg),
        c.started is None && c.frames_in == 0 ==> !changes_call(c, tg),
{
}

/// The line of a call that is over holds the talkgroup, the frames, the samples
/// and the milliseconds, in this order; frames that were skipped are named at
/// the end, where there were any.
pub proof fn call_end_lines_hold_their_numbers(c: CallSummary)
    ensures
        ({
            let s = call_end_line(c);
            let a = crate::text::decimal(c.tg as nat);
            let b = crate::text::decimal(c.frames_in as nat);
            let d = crate::text::decimal(c.pcm_samples as nat);
            let e = crate::text::decimal(c.duration_ms as nat);
            let i = 12 + a.len() as int;
            let j = i + 8 + b.len();
            let k = j + 5 + d.len();
            let l = k + 2 + e.len();
            &&& s.subrange(12, i) == a
            &&& s.subrange(i + 8, j) == b
            &&& s.subrange(j + 5, k) == d
            &&& s.subrange(k + 2, l) == e
            &&& c.frames_skipped_enc == 0 ==> s.len() == l + 4
            &&& c.frames_skipped_enc > 0 ==> s.skip(l + 17) == crate::text::decimal(
                c.frames_skipped_enc as nat,
            )
        }),
{
    reveal_strlit("call_end TG=");
    reveal_strlit(" frames=");
    reveal_strlit(" pcm=");
    reveal_strlit(" (");
    reveal_strlit(" ms)");
    reveal_strlit(" enc_skipped=");
    let s = call_end_line(c);
    let a = crate::text::decimal(c.tg as nat);
    let b = crate::text::decimal(c.frames_in as nat);
    let d = crate::text::decimal(c.pcm_samples as nat);
    let e = crate::text::decimal(c.duration_ms as nat);
    let i = 12 + a.len() as int;
    let j = i + 8 + b.len();
    let k = j + 5 + d.len();
    let l = k + 2 + e.len();
    assert(s.subrange(12, i) =~= a);
    assert(s.subrange(i + 8, j) =~= b);
    assert(s.subrange(j + 5, k) =~= d);
    assert(s.subrange(k + 2, l) =~= e);
    if c.frames_skipped_enc > 0 {
        assert(s.skip(l + 17) =~= crate::text::decimal(c.frames_skipped_enc as nat));
    }
}

} // verus!
