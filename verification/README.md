# tokio-socketcan-bcm

The Broadcast Manager protocol provides a command based configuration
interface to filter and send (e.g. cyclic) CAN messages in kernel space.
Filtering messages in kernel space may significantly reduce the load in an application.

A BCM socket is not intended for sending individual CAN frames.

- `src/` is the library, verified with Verus. It decides which system calls an
  operation makes, lays out the bytes that go to the kernel, reads the bytes that
  come back, and says what a stream gives next. It performs no I/O.
- `app/` performs the system calls and plugs the streams into tokio.
- `tests/` runs the library.

| module | what it holds |
| --- | --- |
| `constants` | opcodes and flags of the protocol |
| `id`, `frame`, `timeval` | identifiers, frames and intervals |
| `abi`, `byte_order` | how C lays integers and structures out on a machine |
| `message` | message heads, their frames and their bytes |
| `address` | the address of an interface |
| `socket` | opening, subscribing, removing, reading, closing |
| `stream` | what a poll does after each attempt to read |
| `error`, `text` | failures and the text of messages |
