# quote_server

A stock quote server speaking a line protocol over TCP and streaming quotes
over UDP, with an interactive client.

- `src/` is the verified library: the quote record codec (`quote`, with
  `decimal` and `text`), the market of quotes (`market`), the answers to the
  protocol's request lines (`protocol`), the schedule of a UDP stream
  (`broadcast`) and the client's decisions (`client`).
- `app/` runs them: sockets, threads, the clock, floating-point prices and the
  rkyv encoding of the quotes sent over UDP. `quote_server` starts the server;
  `quote_server client` starts the client.
