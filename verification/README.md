# periph-core

A library for reaching device peripherals (serial ports and HID devices)
from a command line, with its logic verified by Verus, and the `periph`
command built on it.

- `src/` — the verified library. `payload` parses hexadecimal payloads,
  `hid` handles `vid:pid[:serial]` selectors and HID listings, `serial`
  lists serial ports in path order and interprets port reads and writes,
  `platform` builds the preflight report, `service` routes each request
  to its backend, `cli` renders what the command prints, and `text` holds
  the hexadecimal, decimal and UTF-8 helpers.
- `app/` — the `periph` command: argument parsing, the environment, the
  file system, the serial and HID devices, and JSON output. It performs
  what the library asks for and hands back what it observed.
- `tests/` — tests of the library, including comparisons with the
  standard library's own hexadecimal, UTF-8, white-space and path-order
  behaviour.
