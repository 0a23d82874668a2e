# gl_renderer

A small OpenGL renderer whose bookkeeping is verified with Verus.

- `src/context_tracker.rs`: several GL contexts under fresh identifiers, at
  most one of them current. Switching a context's state is the windowing
  library's (unsafe) work; the tracker says which switch comes next
  (`Action`) and records the result, keeping its invariant throughout.
- `src/support.rs`: the GL calls a frame makes, planned as a list of
  `GlCommand`s with their sizes and counts, and the hexadecimal listing of a
  uniform's raw name.
- `app/`: the window, the event loop, loading the GL, carrying out the planned
  commands and the glutin calls the tracker asks for.
- `tests/`: the library's tests.
