# ESP32 XVC server

A Xilinx Virtual Cable (XVC) server for the dual-core ESP32. It exposes the JTAG
pins of the chip over TCP port 2542 through Wi-Fi.

The library under `src/` holds the logic of the server and is verified with
[Verus](https://github.com/verus-lang/verus). The firmware under `app/` is
ordinary Rust around it: it owns the chip, the radio and the socket, performs
the actions that the library asks for and reports their outcomes.

## Layout

| Module | Contents |
| --- | --- |
| `xvc::wire` | the wire format: requests, frames, decoding |
| `xvc::window` | the receive window, a byte queue in one fixed buffer |
| `xvc::server` | what is done about the bytes in the window |
| `xvc::session` | what a client sees of a whole session |
| `xvc::stream` | shifts larger than the window, executed in chunks |
| `xvc::tms` | retention of the TMS vector of such a shift |
| `xvc::transport` | reads and writes that must make progress |
| `xvc::report` | what is reported of a streamed shift |
| `jtag::ipc` | the mailbox between the cores |
| `jtag::service` | TCK period, commands, deadlines, cancellation |
| `jtag::worker` | the loop of the pin-driving core |
| `jtag::tap`, `jtag::scan` | the waveforms of a TAP reset and of a shift |
| `jtag::pins` | pin operations, their timing, and what a target sees of them |
| `network` | recovery of the Wi-Fi link |
| `config`, `decimal` | network configuration and its text form |
| `delay`, `time`, `bits`, `buffer` | delays, clock arithmetic, bit strings, copying |

## How it is written

Nothing in the library waits. Where the server has to wait for a client, for the
other core, for the radio or for time to pass, the library is a state machine:
an operation takes what happened and answers with the next action. The waveforms
of the pins are machines too, and their contracts state the whole list of pin
operations, so what a target sees on its lines can be proved.

The functions whose names start with `law_` state what holds of several
operations together: that every request is decoded as it was sent, that TDO
bytes are sent in order and completely, that a command's buffers are free once
it is reported as completed, that a TAP reset leaves any target idle, that the
chip is reset only as the last resort.

One outside type is taken on trust: `jtag::ipc::Completion` wraps the `Signal` of
embassy-sync, and the contracts of its private methods state what that crate
documents of `new`, `reset`, `signal` and `try_take`.

## Hardware

| Signal | ESP32 GPIO |
| --- | ---: |
| TCK | 18 |
| TMS | 23 |
| TDI | 19 |
| TDO | 34 |

Connect the ground of the ESP32 to that of the target. GPIO34 is input-only,
which is appropriate for TDO.

## Configuration

The firmware takes `WIFI_SSID`, `WIFI_PASSWORD`, `STATIC_IP` and `GATEWAY_IP` from
the build environment; the subnet prefix is fixed at 24 bits. `XVC_LOG` turns
detailed logging on, `TDO_DIAGNOSTIC` a check of the TDO input at startup.

`app/platform.rs` is the only file that touches the chip. It needs esp-hal,
esp-radio and esp-rtos beside the crates in `Cargo.toml`; those build for the
chip only and are left out of it so that the library and its tests build on any
host.

Once the server reports that it is ready, connect Vivado to
`TCP:<STATIC_IP>:2542`.
