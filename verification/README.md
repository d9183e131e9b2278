# wtfi2

What The F*ck Internet: pinpoint exactly where a connection dies.

A sweep asks every hop between this machine and the internet — its own
addresses, the Wi-Fi link, the router, the uplink, the WAN, the resolver, a
captive portal, a VPN tunnel where one is active — and the diagnosis names the
first break that matters, why it broke, and what to do about it.

The logic is written in [Verus](https://github.com/verus-lang/verus) and proved
against its contracts. Nothing in it touches the network.

## Layout

| Path             | What it holds                                                    |
| ---------------- | ---------------------------------------------------------------- |
| `src/model/`     | statuses, faults, hops, the path, and measured quantities         |
| `src/diagnose.rs`| the verdict on a path                                            |
| `src/platform/`  | what the tools of the operating system print, and what it means  |
| `src/probe/`     | one module per hop: what to ask, and how to grade the answers     |
| `src/engine.rs`  | how a sweep opens, what it runs, and how it ends                 |
| `src/render.rs`  | the text report                                                  |
| `src/json.rs`    | the JSON document                                                |
| `src/ui/`        | the dashboard's state, and what it shows                         |
| `src/cli.rs`     | flags, what a run puts out, exit codes                           |
| `src/addr.rs`    | addresses as text and as ranges                                  |
| `src/number.rs`  | numerals and rounding                                            |
| `src/wide.rs`    | numbers wider than a machine word                                |
| `src/text.rs`    | lines, words and pieces of text                                  |
| `app/`           | the program: tools, sockets, HTTP, DNS, the terminal             |
| `tests/`         | scenarios                                                        |

Each module ends with its laws: public proof functions that state what holds of
its operations together, such as that the closest break owns the verdict, that
reports keep the order of the chain whatever order they land in, or that an
address reads back from its text.

## Measured quantities

Round trips are whole nanoseconds, signed as the tools print them; a mean is a
sum over a count, and a loss share is so many lost out of so many sent. A signal
strength is read to the millionth of a dBm. Thresholds are compared exactly, and
a value is rounded only where it is shown, halves to the even neighbour.

## Exit codes

| Code | Meaning              |
| ---- | -------------------- |
| 0    | All good             |
| 1    | Degraded (warnings)  |
| 2    | Broken               |
| 4    | Nothing was measured |
