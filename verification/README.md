# ruccs

A console control server that speaks the USB2SNES websocket protocol and
passes requests on to SD2SNES cartridges, RetroArch, EmuNWA emulators and Lua
scripts. The protocol logic is a Verus library whose functions carry
contracts proved by Verus; the program around it is ordinary Rust.

## Layout

- `src/` — the verified library
  - `protocol.rs`: opcodes, spaces, flags, address parsing, requests
  - `hex.rs`, `text.rs`: base-16 numbers, decimal and hex printing, text helpers
  - `util/snes.rs`: SNES ROM layouts and the cartridge header
  - `devices/sd2snes.rs`: command blocks, padding, info and listing replies,
    the plan for each request, serial port changes
  - `devices/retroarch.rs`: bus mapping of ROM accesses, memory commands,
    hex replies, the ROM check
  - `devices/emunwa.rs`: ASCII replies, commands, grouped reads, enumeration
  - `devices/lua.rs`, `devices/device.rs`
  - `devices/table.rs`, `devices/manager.rs`: the device tables of the managers
    and what each manager decides on each event
  - `server.rs`: routing of client requests and the binary-transfer state
- `app/` — the executable: tokio tasks, sockets, serial ports, the
  websocket server and JSON
- `tests/` — tests of the library on concrete values
