# nodem_esp32

Firmware logic for an ESP32-C3 that shows a framebuffer on a chain of LEDs and
on a small OLED, joins Wi-Fi, registers with a cloud service, and is set up by
`#` commands over a serial line or a websocket.

- `src/` is the library. Verus verifies its functions against their contracts.
  What is trusted instead is four small wrappers, of the clock (`clock`), of the
  names of log levels (`log_levels`) and of two of the standard library's
  formats (`websocket`), and the contract of `core::str::from_utf8` (`uart`);
  their doc comments say what is claimed. The library takes what was read from hardware, storage or network as plain
  values, and returns what to write, send or show.
- `app/` is the firmware around it: drivers, NVS, sockets and the tasks that
  carry out what the library decides. It expects the trusted root certificates
  in `certs/`.
- `tests/` runs the library on concrete values.

## Modules

| Module | What it holds |
| --- | --- |
| `text`, `nvs`, `clock` | Splitting, trimming and numbers; writes to the storage; time |
| `iled`, `layout`, `timing`, `color`, `frame`, `iled_task` | The LED chain: its configuration, wiring, bit timing and colours, and the bits of a frame |
| `oled`, `oled_task` | The display: its configuration, pages, retries |
| `nodem`, `driver`, `nodem_task` | The framebuffer's configuration, which part of it a driver shows, the status report |
| `global`, `heartbeat` | The shared state and how it is reported |
| `commands`, `command_listener`, `loader` | The `#` commands and uploads |
| `uart`, `websocket`, `cloud_task`, `wifi` | The serial line, the cloud and the network |
| `log_levels` | Log levels given when the firmware is built |

Laws that span functions, such as that a stored configuration reads back as the
one that was set, are public proof functions named `lemma_..` beside the
functions that they speak of.
