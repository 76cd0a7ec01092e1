# canislink

Control plane of a dog-to-dog social portal network: standalone terminals
where dogs start, accept, hold and end remote contact with no human in the
session protocol.

- `src/` is the library, verified with Verus: the MCU UART frame protocol
  and its emulator, presence debouncing and the sense pipeline, mutual bonds
  and invite routing, welfare policy, device tokens, TURN credentials, the
  in-memory stores and their restoration from stored rows, the rules of each
  device API route, and the edge terminal's state machine. Forces are held in
  tenths of a newton, confidences in hundredths, bond weights in thousandths
  and times in milliseconds since the Unix epoch.
- `tests/` runs the library on concrete cases.
- `app/` holds the programs around it (HTTP servers and clients, SQLite,
  files, the command lines): `canislink device-api`, `signaling`, `edge`,
  `sense`, `mcu-emu`, `steward`, `sim-dog`, `lab`, and placeholders for `media`,
  `steward-api` and `policy-worker`.
