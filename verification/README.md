# neil_blueprint

The Neil blueprint console: a terminal chat with Neil, a sidebar with his seal, and
panels onto his heartbeat, memory palace, intentions, system, failures, logs, the
cluster and the memory graph.

- `src/` is the library, verified with Verus: text handling and word wrapping, the
  parsers for the cluster report, the live stream file and the chat entries, the
  console's key handling and history, the layouts of every screen and panel as rows
  of styled text, the memory graph's structure, and the seal's ASCII art. Each public
  function states in its contract what it returns; the laws that relate several
  functions (history recall, cursor moves, grid navigation, the pairing of peers, the
  graph's degrees, line rasterising, wrapping) are public proof functions.
- `app/` is the program around it: terminal set-up and the event loop, reading
  Neil's files and the cluster tool, the graph's physics and projection, and the
  conversion of styled rows into the terminal library's lines.
- `tests/` runs the library on concrete inputs.
