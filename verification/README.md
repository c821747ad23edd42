# g2mirror

Mirror terminal programs to Even Realities G2 smart glasses.

`g2mirror <command> [args...]` runs a command in a pseudoterminal. While a
device views it, the app is resized to the device's screen, its output is
parsed into an in-memory screen model, and re-emitted so that it renders
correctly on the host terminal and on the device. `g2mirror-server` is the
websocket gateway for device drivers, `g2mirror-view` a terminal client for
humans.

## Layout

- `src/`: the library, verified with Verus. Every decision the three programs
  take, and everything they draw of a session, comes from here.
  - `mirror`, `render`, `history`: the view state machine, the escape sequences
    it draws with, and the scrollback archive
  - `session`, `session_model`, `control`, `input`, `wrap`: one wrapped app with
    its clients, bells, delayed input and command line
  - `live`, `attach`, `attached`, `viewer`, `keys`: the clients
  - `server`, `terminals`, `config`, `config_text`, `config_syntax`, `filter`,
    `token`, `jsonc`: the gateway
  - `protocol`, `paths`, `text`: messages, socket names, text
  - `terminal`, `json`: what is known of the terminal emulator (`vt100`) and of
    JSON documents (`serde_json`)
- `tests/`: tests of the library
- `app/`: ordinary Rust around it: sockets, terminals, processes, files, and
  the JSON form of messages and config

What is not proved is what the outside crates and a few standard functions do;
each such function is named and described where it is wrapped
(`#[verifier::external_body]`). The laws of the library are the public proof
functions; their doc comments state them in words.
