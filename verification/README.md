# pulsar-proto

The wire protocol of Pulsar: the messages exchanged between the relay server and the
app, and the datagrams that carry them, verified with Verus.

- `src/message.rs`: the messages, and a mathematical model of each.
- `src/wire.rs`: the wire format. `Wire` gives every value its bytes and its reader,
  with proofs that each undoes the other; `encode` and `decode` are stated over them.
- `src/layout.rs`: where the fields of each message stand.
- `src/device_id.rs`, `src/token.rs`: identities and tokens, drawing them at random,
  and their text forms.
- `src/address.rs`: how an address is shown.
- `src/laws.rs`: what the protocol promises as a whole: messages round-trip, have one
  spelling, survive trailing bytes, are never mistaken when cut short, and refusals
  reach clients that know fewer error codes.
- `src/le.rs`: little-endian numbers.
- `src/text.rs`: decimal and hexadecimal text, and the contracts on std's `Formatter`
  and `String::push` that are taken on trust.
- `src/codec.rs`, `src/random.rs`: the calls into bincode and rand, with the contracts
  that are taken on trust.
- `app/`: the same types with serde's derives and std's socket addresses.
