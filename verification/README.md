# dbk2jp

Drive a BSL/SeaCAD DBK2JP galvo laser controller directly over USB, with the part
that decides what reaches the laser verified by Verus.

**The rule that matters.** Session and control commands go on EP 0x06; everything that
configures a job goes inline in the EP 0x02 batch, ahead of the vectors. The board ACKs
parameter commands on EP 0x06 and then silently ignores them. `job_laws.rs` proves that
every operation keeps to it.

**What is left running.** Laser outputs latch, and a plain reset does not clear them.
Whatever programs one makes its job live, and closing a live job silences every output
first. `job_laws.rs` proves that nothing else programs one.

## How it works

A `Job` holds the settings of a session. What it is asked for it turns into a `Script`:
commands, batches and pauses, in order. A `Run` carries a script out on a `Board`, one
round at a time, and says how long to wait before the next round; what came of it goes
back to the job. A `Board` keeps a ghost record of everything it asked of its
`Transport`, so that contracts and laws speak of the transfers themselves, whatever the
hardware answers. Each method that adds to the record also says that the events it added
are the calls it made on the transport, each from where the one before it left it, and
that there was no other.

Real arithmetic is not verified. A real setting is its 64 bits (`Double`), which the
library compares and carries; lengths, angles and rounding come in as integers or as
functions that the caller hands over.

## Layout

| Module | What it holds |
|---|---|
| `protocol` | the 12-byte command frame and power packing |
| `usb` | `Board`, `Transport`, failures, endpoint recovery |
| `script` | questions that get their own reply, scripts, runs, and their laws |
| `laser` | laser types and how each is driven |
| `field`, `markcfg` | the scan field and the file it is kept in |
| `job`, `limits`, `status` | settings, headers, outputs, warnings, replies |
| `stream`, `survey`, `pace` | paths as vectors, run-ups, wiggles, batches and pauses |
| `unlock` | the ATSHA204 replay |
| `cyusb`, `devices` | what the two platform backends decide |
| `cli` | the command line |
| `path_laws`, `job_laws` | what holds of every path and every job |
| `double`, `text` | doubles by their bits, text as characters |

`app/` is the program around the library: the transports (CYUSB3 IOCTLs on Windows,
libusb elsewhere), the waiting, the real arithmetic, the command line and the Python
module. `tests/` runs the library against fake boards.
