# p25_httpd

The core of a P25 trunking receiver daemon, verified with Verus, and the daemon
around it.

- `src/lsm`: the LSM receive chain. Ring decoding, filter taps and history,
  symbol decisions, frame sync, error correction of the network identifier.
- `src/fpga`: the receiver's logic. Registers and the order of accesses to them,
  coefficient layout, oscillator words, sub-buffer rings, interrupt counters, and
  starting the two chains.
- `src/dibits.rs`, `src/runtime.rs`: what is counted of dibits and of the LSM chain.
- `src/follower.rs`, `src/monitor.rs`, `src/voice.rs`: which calls are followed,
  and voice frames on their way to the vocoder.
- `src/audio.rs`: samples as bytes, WAV headers and files.
- `src/event_log.rs`: the log that clients tail.
- `src/httpd`: what requests ask for, what they change, and what is shown.
- `src/text.rs`, `src/calendar.rs`, `src/clock.rs`, `src/sorting.rs`,
  `src/slices.rs`: text of numbers and dates, times, stable sorting, sequences.
- `src/json.rs`: what comes from `serde_json`.

`app` is the daemon: arguments, tasks, HTTP, and the floating-point part of the
receive chain. It reaches the hardware, the frame decoder, the call manager and
the vocoder through the traits in `app/station.rs`; `app/detached.rs` is a station
without a receiver.

Times are nanoseconds on one monotonic clock. Single-precision numbers that the
library has to compare come to it by their rank (`lsm::demod::float_rank`).
