# roxy-can

The verified core of a CAN bus analysis tool. It covers the frame model, DBC and FlexRay
databases, signal decoding, the interactive generator, replay blocks, triggers, the
specification monitor, signal observers, the workspace with its windows and desktops, project
files and the command line.

- `src/` is the library. Every function carries a contract that Verus proves; what the
  library states across functions stands as public proof functions named `law_..`.
- `tests/` runs the library on concrete traffic, databases and workspaces.
- `app/` is the ordinary Rust around it: files, dialogs, the clipboard, the core's thread,
  headless runs, and everything in floating point.

Values that the tool computes in floating point cross the library as bit patterns or as
finished texts. What comes from outside a step of the bus (the log, the adapters, the
scripts, the waveforms) is handed in step by step, in the order that `bus_walk` fixes.
