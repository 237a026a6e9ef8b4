# mpegts-pacer

A transport-agnostic MPEG-TS constant-bitrate pacer for broadcast (IRD) egress, with
its logic verified in Verus.

Feed it already-multiplexed transport packets that arrive in bursts and it emits a
deterministic CBR stream: every output slot carries a content packet, a byte-locked
PCR or stuffing, and leaves at `anchor + n * 188 * 8 / bitrate`. It is not a muxer.
The only bytes it rewrites are the six PCR octets and, across a discontinuity, the
indicator that says so.

## Layout

- `src/` is the library. It performs no I/O, reads no clock and holds no floating
  point: instants are nanoseconds that the caller hands in, proportions are exact
  ratios.
  - `schedule` states what the scheduler holds and what each event does to it;
    `scheduler` is the code that is proved to do that.
  - `stream_grid` and `slot` place packets by stream position for a redundant pair;
    `media_clock` and `arrival` recover the source's rate and burstiness.
  - `pacer` decides what a driver waits for next; `cli`, `report`, `rounding` and
    `text` read the command line and write the log.
  - `laws`, and the `law_` functions beside the code they speak of, state what holds
    of every run: `account` that no packet is lost sight of, `passage` and `whole_run`
    that what arrived is what was sent, `repetition` that the PCR is repeated in time,
    `pair` and `joining` that redundant legs agree wherever each of them started.
  - `shared_bytes` is the boundary with the `bytes` crate, and the only part that is
    believed rather than proved.
- `app/` is the program around it: sockets, pipes, timers and the async tasks that
  drive the engine.
- `tests/` run the library on a virtual clock.
