# jong_talk

A LAN chat room with a rock-paper-scissors side game whose loser's computer
may be switched off by the winner.

- `src/` is the verified library: the wire format of frames (`protocol`,
  `bytes`, `text`), the referee (`game`), the room server's bookkeeping
  (`server`), the client's bookkeeping and prompts (`client`), small screen
  decisions (`ui`) and fresh identities and game ids (`identity`), over a
  small map type with unique keys (`assoc`).
- `app/` is the program around it: sockets and tasks (`net`), the window and
  its screens, and the config file.
- `tests/` runs the library on concrete values.
