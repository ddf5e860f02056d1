# mcclwrap

A wrapper around a Minecraft server. It passes the console commands of the user and of the clients
on a socket on to the server, and the server's console output back to them.

- `src/` is the library: the data, the languages and the decisions of the wrapper, each with its
  contract, verified with Verus.
  - `command`, `secretary`, `conversation`: the language that clients speak, what their commands
    come to, and what clients can count on
  - `minecraft`, `guards`: requests, and the guards that hold them back
  - `console_line`, `console_output`: what the server writes to its console
  - `console`: what the user enters
  - `shutdown`: when to stop the server
  - `filters`, `expiroset`, `ready`, `ids`: filters, timeouts, ready channels and identifiers
  - `slang`, `text`, `util`: what the others share
  - `external`: the calls into other crates, and what is relied on of each
- `app/` is the program: the process, the sockets, the terminal, and the tasks that wait, write and
  signal as the library says.
- `tests/` run the library with the crates it calls.
