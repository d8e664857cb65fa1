# luanti_proxy

A relay that carries game traffic for clients that reach it over WebSocket
or WebTransport. Clients ask it for an address on a private network, bind
UDP ports on that address, and exchange framed datagrams with each other
and with the internet; they can also reach the relay's own HTTP CONNECT
and DNS services.

## Layout

- `src/` is the library. Its own functions carry contracts that Verus
  proves; the few small wrappers that call outside crates (`rand`, `hex`,
  `rustls-pemfile`, `rcgen`, and std's `String::from_utf8`) carry
  contracts that Verus trusts, each stating what that crate's source shows:
  - `codec`, `addr`, `text`: big-endian integers, socket addresses, and the
    byte-level text handling the command language is built on.
  - `net`: addresses and passcodes (`code`), the frame that carries one
    datagram (`packet`), and the table of assignments and bound ports
    (`network`), with its invariant and the laws it keeps.
  - `commands`: the command language (`PING`, `PROXY`, `NEWADDR`, `BIND`)
    and its answers.
  - `connectproxy`, `dnsproxy`: the request and reply formats of the two
    built-in services, and the CONNECT proxy's state machine.
  - `session`: what a connection does with commands, stream data,
    datagrams and relayed replies.
  - `service`: the registry of clients and where a `PROXY` command leads.
  - `settings`: the part of the settings the logic reads, and the TLS
    material: where it comes from, the certificates and key read from PEM
    text (through `rustls-pemfile`), and the self-signed certificate
    (through `rcgen`).
  - `vpn`: the packets, codes, addresses and routing table of code-joined
    virtual networks.
  - `random` (private): the random draws, through the `rand` crate.
- `tests/` runs the library on concrete inputs.
- `app/` is the program around it: reading the settings and PEM files,
  the rustls types, sockets, the WebSocket and WebTransport servers and the
  tasks that move bytes. It makes the outside calls that are I/O and asks
  the library for the decisions between them. It also runs the one loop
  the library cannot: handing out an address draws at random, and a draw
  that collides with a standing assignment is drawn again (the library
  promises success when nothing can collide).
