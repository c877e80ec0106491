# chatroom

A terminal-and-window chat: a server that keeps a room of named members and
relays messages, and a graphical client.

- `src/` is the verified library:
  - `text.rs`: trimming, prefix tests, splitting and joining, on characters;
  - `message.rs`: the message types and the reading of a typed line;
  - `server.rs`: the room and what the server sends for each message;
  - `client.rs`: what the client sends for each action, and how what the
    server says changes the client's state;
  - `display.rs`: the coloured lines in which notices are printed;
  - `wire.rs`: the text carried by the bytes of a read.
- `app/` holds the programs: the server's connections and threads, the
  client's window, JSON encoding, and printing in colour. `chatroom server`
  starts the server; without that argument the client starts.
