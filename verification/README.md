# relay_gate

Verified packet logic for a small family of TCP relay servers used between
game clients and game servers.

- `src/` is the library, verified with Verus:
  - `codec`: the two-byte header mask and the little-endian id fields;
  - `packets`: the packets that the front relay exchanges with game servers;
  - `relay`: per-connection decisions of the front relay (both variants);
  - `center`: the byte-frame centre; `chat`: the line chat centre;
  - `split`, `net`: the raw relay's frame splitter and connection decisions;
  - `registry`: the peer table shared by the connection tasks;
  - `action`: what a connection task is told to do after each event.
- `app/` is the program: sockets, tasks, channels and logging. Its first
  argument picks the server (`front`, `front-single`, `center`, `chat`,
  `net`).
- `tests/` runs the library on concrete inputs.
