# bluerobotics_ping

Frames, checksums and byte-by-byte decoding of the Blue Robotics ping protocol, with
their behaviour stated and proved in Verus.

- `src/message.rs`: `ProtocolMessage`, its wire format and checksum.
- `src/frame.rs`: splitting a complete frame into a message.
- `src/decoder.rs`: the streaming decoder, and the proof that it reads back every frame.
- `src/device.rs`: the requests a device sends and what it makes of the replies: acks and
  nacks, and the fields of a requested message.
- `src/json.rs`: JSON values, read with `serde_json`.
- `src/definition.rs`: reading the protocol's JSON definition files into message
  definitions.
- `src/parser.rs`: the field types of the definition files.
- `src/payload.rs`: the payload format of messages: how fields become bytes and back, and
  where the fields of a payload of scalars lie.
- `src/error.rs`, `src/serialize.rs`: the error type and serialization traits.
- `app/`: writing frames to an `std::io::Write`, error conversions, the async device
  layer over tokio, and the build-time
  generator that turns the definitions read by `src/definition.rs` into message-set
  modules.
