# whatsapp_rs

A library for the WhatsApp multi-device protocol, written in Verus: the library's functions
carry contracts that Verus proves. The calls into outside crates (cryptography, base64, zlib,
randomness, the `snow` Noise engine) sit behind small trusted wrappers in `crypto` and
`snow_handshake`, and std's UTF-8 conversions behind wrappers in `codec`; their contracts state
what the crates and std document.

- `src/` — the verified library:
  - `node`, `token`, `tag`, `codec`: the binary-XMPP stanza model and codec
    (`marshal_roundtrip`: decoding an encoding gives the node back; `truncated_encoding_fails`:
    a strict prefix of an encoding runs out of input);
  - `frame`: the length-framed stream and its reassembly (`frame_roundtrip`;
    `lemma_chunked_reassembly`: frames come out whole and in order however the stream is chunked);
  - `pb`, `adv`, `message`, `handshake`, `client_payload`: the protobuf wire types
    (each with its encode/decode round trip);
  - `crypto`: the calls into the outside cryptography crates, behind trusted wrappers;
  - `pcrypto`, `xeddsa`, `ratchet`: AES, HKDF, PBKDF2, XEdDSA signatures (`verify` accepts every
    signature made under the private key of the public key it is given) and the Signal chain keys;
  - `noise`, `snow_handshake`: the Noise XX handshake and the transport;
  - `jid`, `device`, `session`, `pairing`, `phone`, `stanza`, `link`: addressing, the device
    keystore, QR and phone-number pairing, and the decisions of the device-linking exchange.
- `tests/` — executable tests of the library.
- `app/` — the command-line front end (`pair`, `demo`): sockets, files, JSON and the terminal.
