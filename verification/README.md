# udp_hopper

A UDP relay that breaks one long UDP flow into many short ones by hopping
across a range of server ports. The client side accepts traffic from local
clients and sends it to the server side on a port that changes every two
minutes; the server side listens on the whole port range and forwards to
the real upstream server.

- `src/` is the verified library (Verus): the port-hopping sequence
  (`hopping`), the send buffer of a non-blocking socket (`udp`), the
  connection table (`conns`), the decisions of the client and server event
  loops (`client`, `server`), addresses (`addr`), options (`args`) and the
  handling of send and receive results (`utils`).
- `app/` is the program around it: command line, sockets, the poller and
  the clock.
- `tests/` exercises the library on concrete values.
