# creeper-term

The terminal model of CreeperTerm, a tabbed terminal emulator, written in Verus:
the screen buffer, the escape-sequence parser, colours, the row of tabs, plugin
bookkeeping and the decisions the application takes on each event, each with a
contract that Verus proves.

## Layout

- `src/text.rs`: byte and string equality, unsigned decimal numbers read and
  written.
- `src/terminal/buffer.rs`: the screen (lines of cells, cursor, saved cursor,
  alternate screen) and a mathematical model of every operation on it.
- `src/terminal/parser.rs`: the VT/xterm parser as a state machine; `step`,
  `run` and `parse_run` say what any input does, `step_ok` where it is defined.
- `src/terminal/color.rs`: colours and their names in configuration files.
- `src/terminal/laws.rs`: properties that span operations, such as parsing input
  in pieces, keeping the screen in good order, and the alternate screen leaving
  the main one alone.
- `src/ui/`: the row of tabs and the built-in colour palettes.
- `src/plugin/loader.rs`: plugin directories and the plugins found in them.
- `src/plugin/paths.rs`: directory paths compared by their components.
- `src/app.rs`: selections, key translation, and `AppState::update`, which maps
  an event and a state to the next state and the action to carry out.
- `app/`: the window (iced), pseudo-terminals, SSH, configuration and plugin
  files: the input and output around the library, which Verus does not see.
- `tests/`: scenarios run against the compiled library.
