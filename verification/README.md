# ForgeSworn Link

Two nodes that know each other's public keys find a path between them: first over a relay,
which sees as little as it can, and then direct, where both owners allow it and a signed
answer has proved the address.

The library under `src/` is written in Verus.  Every rule it applies is stated as a contract
and proved: the wire forms and their injectivity, which cards are accepted and that a card
does not replay, which tags two nodes meet under, whom a relay delivers to, how a session
moves between its paths, what a LAN consent covers, and what a fetched blob must be before it
counts as complete.  Properties that relate several functions are public proof functions whose
names begin with `law_`.

What the library takes from other crates (digests, signatures, key agreement, certificates,
URLs, hexadecimal and base64 text, randomness) is called through small functions in
`src/crypto.rs`, `src/text.rs` and `src/link_url.rs`.  Each says in its contract what is
relied upon.

* `src/`: the verified library
* `tests/`: its tests
* `app/`: sockets, clocks, tasks and the command line around the library
