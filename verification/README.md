# Ring

Ring is a bus between processes on one machine. Processes exchange messages over named
channels and call each other's functions, all in POSIX shared memory: no sockets, and no
kernel on the data path. Every payload is Apache Avro, and two sides of an interface agree
if and only if their schemas have the same CRC-64-AVRO fingerprint.

A broker (`impulsed`) owns the control segment and hands out arenas. Connectors join, publish
and read channels, offer and call functions. After the handshake the data flows between the
peers directly.

## Layout

`src/` is the library. It is written in Verus: every function states what it does, and Verus
proves it. It works on plain values, so what only the system can do is handed out as an
action, and what came of it is handed back in.

| Module | What it holds |
|--------|---------------|
| `frame`, `bytes`, `pow2`, `text` | frames on the wire, and the numbers and texts in them |
| `shm`, `ring`, `lock`, `control` | segments, rings, the producers' lock, the control segment |
| `avro`, `outline`, `unfold`, `json` | schemas, fingerprints and records, by way of `apache_avro` |
| `proto`, `http` | the records of the control plane, of calls and of HTTP over the bus |
| `util` | segment names, random numbers, access keys |
| `registry`, `broker` | who is on the bus, and what the broker does with a message |
| `client`, `channel`, `rpc` | what a connector asks, reads and sends |
| `bus` | what broker and connectors promise together |
| `bench` | a relay of services in a circle |

Functions whose names begin with `law_` state what holds of the library as a whole: records
leave a ring in the order in which they came, a reply reaches the call that waits for it, a
name passes on only once its owner is gone, a connector that comes back brings all that it
owned.

`tests/` runs the library, among other things a whole bus in one process.

`app/` is the program around the library: mapped memory, futexes, threads, values of any
serializable type. Without arguments it is the broker.

## What is not proved

What `apache_avro`, `sha2` and `getrandom` compute is taken from them. Each call into them
stands in a small function of its own in `avro` or `util`, whose comment says what is claimed
of it.

What `app/` does is not proved. The library's `Ring` works on memory that nobody else changes;
on shared memory `app/ring.rs` loads and stores the cursors itself, in the order that the
processes agree on, and takes the arithmetic, the checks and the steps of the lock from the
library. The same holds of the waiting around it: `Broker::run`, `Inner::submit`, `Inner::call`,
`handle_one` and the ends of a channel state one round, and `app/` drives the rounds on real
memory with the functions that they are made of.
