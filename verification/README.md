# agent_wallet

A process-isolated signing service for Ethereum accounts, written in Verus.

Private keys live in an encrypted store. Clients ask for signatures of 32-byte digests over a Unix
socket or over MQTT, and get back a signature or an error. A request ID is answered once for as long
as its response is kept.

## Layout

- `src/` is the library. Every function has a contract, and Verus proves it, but for the 18 wrappers
  of functions from outside, whose contracts it believes.
  - `protocol`: requests, who may make them, their fingerprints, and responses.
  - `metadata`: the free-form entries of a request, in the order of their keys.
  - `service`, `cache`: answering requests, and answering repeated ones as before.
  - `store`, `record`, `listing`, `directory`: the operations of the key store, its records, their
    list, and what holds of the record files as a whole.
  - `envelope`, `sealing`: the master key, the data key under it, and encryption.
  - `crypto`: accounts, signatures, and the way back from a signature to an account.
  - `config`: settings, and which of them can be served.
  - `secret`: secrets in memory, and what is asked of files that hold them.
  - `transport`: lines over a socket, topics over MQTT.
  - `encoding`, `text`, `time`, `error`: what the others are written with.
  - `primitives`: the cryptographic operations that come from other crates, with what is relied on
    of each. The wrappers of hex and base64 stand in `encoding`, that of UTF-8 in `secret`.
- `app/` is the daemon `walletd`: arguments, files, sockets, the broker, the clock, JSON and TOML.
- `tests/` runs the library with the crates that it is built on.

The store's operations are functions of what was found on disk: the daemon reads, the library
decides and says what is to be written, and the daemon writes it.

## What is proved

- A request is signed only if its client, wallet, purpose, scheme, validity window, metadata and
  digest pass, under the policy with the longest matching client prefix.
- The same request gets the same response while the response is kept; another request with the same
  ID is refused without a signature.
- No more responses are kept than the limit allows.
- A fingerprint is made from bytes that determine every field of the request.
- A key that was added is found again, and signs with the private key that was added. Its
  signatures lead back to its address.
- Deleting a key takes it, and no other, from the list. It is not found any more, the other keys
  sign as before, and its ID can be used again.
- A store opens again with its master key, and with a replacement after rotation, to the same data
  key. Where the cipher does not open the envelope under another key, that key is refused.
- A line is read the same however the stream is cut into pieces.

What comes from other crates and from the standard library is relied on as the wrappers in
`primitives`, `encoding` and `secret` state it. Nothing is proved about
randomness, and nothing about how hard the operations are to break.
