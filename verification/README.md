# zhtta

The server of a small multiplayer drawing game: players log in, send each
other a word to draw (as a drawing or as ASCII art), fetch the questions sent
to them, and load the game's static pages.

`src/` is the verified library (Verus):

- `bytes`: splitting, comparing and copying byte strings.
- `table`: a map from byte-string keys to values, viewed as a `Map`.
- `routing`: from the text of a request to the handler it selects and its
  arguments, and when handling it fails.
- `text`: decimal and hexadecimal numerals.
- `peer`: the name of the peer of a connection.
- `queue`: the first-come-first-served queue of static-file requests with the
  streams parked until they are served.
- `server`: reading the account and question files, every handler's reply,
  and `run`, one step of the server from an event to an action.
- `args`: the command line, parsed with `getopts`.
- `laws`: properties of the library as a whole.

`app/` holds the program around it: sockets, threads, files and the random
choice of a word.
