# tchux

A chat for a local network. Every member derives an AES-256-GCM key from a
shared passphrase; chat lines travel sealed under that key as URL-safe
base64 text, and the server relays them to every member.

`src/` is the verified library:

- `crypto`: the key of a passphrase, sealing a line, and opening a received
  line (`opened_line`), with the round trip stated on `encrypt_message`.
- `session`: the server's side of one connection as a state machine
  (handshake, name, chat).
- `registry`: the server's members, a name-keyed map.
- `lines`, `color`: the lines the server relays and the colour of each name.
- `client`: what a client makes of a received line.
- `chat_view`: the chat window's state: typing, scrolling, the visible
  range of messages, and the `\exit` and `\p` commands.
- `emoji`: `:name:` words turned into emojis.
- `settings`: defaults for settings left blank.
- `line_client`, `threaded_server`: the rules of the line-mode and list-view clients and
  of the thread-per-client server.

`app/` holds the program: argument handling, terminals, sockets and logging.
