# contribution_wallpaper

A desktop background for X11 that shows the current GitHub contribution
streak as a grid of squares, with the contents of `~/todo.txt` drawn in the
middle of the screen.

## Layout

- `src/` is the verified library (Verus):
  - `grid.rs`, `grid_laws.rs`: the contribution grid, its remapping to
    Monday-first weeks, removal of a day in the local future, trimming to the
    current streak, and laws about them.
  - `html.rs`: reading the grid out of the contributions page (through the
    `regex` crate).
  - `graph.rs`, `color.rs`: drawing the grid into a pixel buffer.
  - `text.rs`, `text_laws.rs`, `render.rs`, `font.rs`: word wrapping and
    drawing text with the 7x13 font of `embedded-graphics`.
  - `pacing.rs`: frame scheduling and frame-rate counting.
  - `clock.rs`: the local weekday (through the `time` crate).
- `app/` is the program around it: the window, X11 calls, network and file
  I/O, the file watcher and the event loop.
- `tests/` runs the library on concrete values.
