# crittoutil

A desktop crypto utility — text/binary/Base64 converter, key generator,
encrypter, decrypter, file hasher, saved sessions, and an agent panel that
lets a local LM Studio model call the same tools — whose decisions are
written in Verus and proved against their contracts.

## Layout

- `src/` — the verified library.
  - `converter`: validation and conversion between text, binary and Base64,
    with the round-trip laws.
  - `crypto_meta`, `forms`, `screens`: the algorithm table, the key/IV/payload
    checks, and what each screen does with its form and with a primitive's reply.
  - `home_search`: the keyword search of the home screen.
  - `session`: saved sessions, their listing order, the key history and the
    UTC date formatting (with the civil-calendar law).
  - `agent`, `tools`, `turn`, `display`: the agent's chat messages, the tools
    the model may call, the turn as a state machine (what to send, what to
    run, when to stop), and how the chat is shown.
  - `text`, `json`, `codec`: string helpers, the bit of JSON the tools read and
    write, Base64 and UTF-8.
- `tests/` — tests of the library's public functions.
- `app/` — the GPUI window and views, the session file, the HTTP calls to LM
  Studio and the cryptographic primitives; it drives the library's state
  machines and shows what they decide.
