# tetra_pd

Packet data for a TETRA base station, verified with Verus: the logical link control layer
(basic and advanced link), SNDCP with its address pool, the packet-data channel allocator, the
configuration of all three, and the rules of the gateway to the IP network.

- `src/` is the library. Every function has a contract over mathematical views, and
  `llc/laws.rs`, `llc/runs.rs`, `sndcp/laws.rs` and the `law_` functions of the other modules
  state what holds across calls.
- `tests/` runs the library on concrete traffic.
- `app/` is the gateway program around it: command line, TUN interface, TOML and the wire
  formats.

The library takes PDUs in decoded form and hands them out so; segments of the advanced link
come from a segmenter outside. Time is counted in TDMA timeslots.

| module | holds |
| --- | --- |
| `tdma`, `bits`, `fcs`, `ipv4`, `text` | time, bit strings, check sequence, addresses, text |
| `saps` | the messages between the layers and their queue |
| `llc` | the LLC entity: `basic_link`, `al_rx`, `al_tx`, `al_tick`, `dispatch` |
| `sndcp` | PDP contexts, paging, timers and the address pool |
| `pdch_allocator` | reservations on the packet-data channel |
| `sec_llc`, `sec_packet_data`, `sec_wap_gateway`, `interop` | configuration |
| `control`, `gateway` | control commands, packets between TUN and SNDCP |
