# ser2tcp_tester

A speed tester for transparent transmission between a TCP endpoint and a
serial port, written in Verus.

- `src/` is the verified library:
  - `text.rs`: splitting on separators, unsigned decimal numbers, and the
    `host:port` shape of a socket address;
  - `device.rs`: device descriptions (`tcp:host:port`, `serial:device:baud`)
    and the `Device` interface;
  - `workers.rs`: worker descriptions (`udp,local,remote`,
    `serial,device,baud`) and the `Worker` interface;
  - `sender.rs`: the destination of a sender URL (through the `url` crate);
  - `plan.rs`: which device sends and which checks each stream in a mode;
  - `generator.rs`: the test stream, its handshake, and the check of what
    comes back, with the laws that tie generating and checking together.
- `app/` is the program: command line, sockets, serial ports, threads and
  console output.
- `tests/` runs the library on concrete values.
