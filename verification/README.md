# windlink

A Verus-verified library for the windlink NMEA 2000 bridge: an ESP32 on a
boat's NMEA 2000 bus that publishes position, speed and wind over BLE, and a
desktop analyzer that talks to it over TCP.

## Layout

- `src/header.rs` - the 29-bit CAN identifier (priority, PGN, source).
- `src/packets/` - parameter groups: navigation (`motion`), network
  management (`handshake`), the Simrad autopilot command (`proprietary`), and
  fast-packet framing and reassembly (`fast`). `Packet` decodes and encodes
  them; `RawPacket` is one CAN frame.
- `src/bus.rs` - `Nmea2000`, the node: frame reassembly with expiry, the
  address-claim procedure, and the outgoing queue. Its contracts speak of the
  model `NodeState`; the laws at the end of the file state fast-packet
  transport through `on_packet_at` over a run of calls, the order in which
  queued frames leave over a run of calls, and the address contest.
- `src/gatt.rs` - the BLE client table: who subscribed to which
  characteristic.
- `src/embedded/`, `src/application/` - the two firmware generations: boat
  data and BLE payloads, characteristic handles, bus-packet handling, the
  upload and TCP frame formats, and the status light.
- `src/clock.rs`, `src/util.rs` - the monotonic clock and byte helpers.
- `app/` - the programs around the library: the ESP-IDF glue of both
  firmware generations (`application/`, the default on the ESP32, and
  `first/`), the update-only image, and the desktop analyzer (the default on
  other targets).
- `tests/` - tests of every public function and of the laws on concrete
  values.
