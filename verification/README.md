# octane

The core of a coding agent for the terminal, with its behaviour stated in contracts
and proved by Verus.

- `src/` is the library: permission rules, the conversation and its reduction, memory
  files, commands, configuration, the client side of the Model Context Protocol, the
  turn loop, and what the terminal client decides and says. Nothing in it reads a file
  or waits for a network. Where the outside world has a say, the library is a state
  machine: it says what has to be done next, and takes what came of it.
- `app/` is the program: arguments, files, processes, HTTP, the screen. Models and
  tools are traits there; a host brings its own.
- `tests/` runs the library.

Laws that relate several functions are public proof functions named `law_...`, in the
module they speak of or in a `laws.rs` beside it.
