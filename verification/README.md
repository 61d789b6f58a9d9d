# tforward

A TCP port forwarder with a client blacklist. What it decides is a library whose
contracts are proved with Verus; sockets, files and the command line are ordinary Rust
around it.

- `src/text.rs`: splitting, trimming and decimal numbers
- `src/addr.rs`: IPv4 addresses, ports and socket addresses
- `src/net.rs`: IPv4 networks, read and searched by the `ipnet` crate
- `src/blacklist.rs`: the blacklist file and which clients it turns away
- `src/rule.rs`: forwarding rules
- `src/connection.rs`: one client connection, from acceptance to its end
- `src/forwarder.rs`: listeners, and loading the blacklist anew
- `src/daemon.rs`: running in the background
- `src/log.rs`: log lines and where they go
- `app/`: the program

A public `law_...` function states a property of several functions together.
