# waterui-tui

A terminal backend for [WaterUI](https://github.com/water-rs/waterui), with its logic verified
by [Verus](https://github.com/verus-lang/verus).

Views become a retained tree of nodes. Layout runs in logical points, frames snap to whole
cells, and drawing makes a display list that is applied to a
[ratatui](https://ratatui.rs) buffer. Input goes the other way: events of the terminal change
the nodes, move the focus and name the actions that the host runs.

## Layout

| points | cells    |
| ------ | -------- |
| 1pt    | 1 column |
| 8pt    | 1 row    |

Both column edges round to the nearest cell, the tops of rows round down, and heights round with a
minimum of one row. A point is counted as 65536 ticks: whole points and their halves, quarters
and so on are exact, other lengths are rounded to the nearest tick before they snap to cells.

## The parts

- `src/` is the library: nodes, layout, drawing, input, the event loop's decisions, image
  transmission, scrolling of the terminal, and the probing of its abilities. Each function
  states what it does, and proof functions named `law_*` state what holds across functions.
  What the library takes from `ratatui`, `unicode-width`, `flate2` and `base64-simd` is stated
  at the wrappers in `buffer.rs`, `text.rs` and `kitty.rs`, and not proved.
- `app/` is the host: it turns WaterUI views into the plain values of the library, keeps both
  in step, and does the input and output. Colors, gradients and the positions of sliders are
  computed there, because they are floating-point numbers.
- `tests/` runs the library, with the layouts of `waterui-layout` and a real buffer.
