# wlmatrix

A Matrix digital-rain screensaver for Wayland, rendered on the CPU. Its logic is a library
verified with [Verus](https://github.com/verus-lang/verus); the program around it does the
input and output.

## Layout

- `src/` is the library.
  - `config`, `cli`, `color`, `charset`, `number`, `text`: settings, from the file and the command
    line. `config_laws` holds what is proved of them as a whole.
  - `rng`, `rain`: the grid of falling columns and the generator that feeds it, with `rain_laws`.
  - `font`, `glyph`, `paint`, `frame`: which font and glyphs to use, and how a frame is painted.
  - `font_data`, `font_tables`, `cff`, `bytes`: a look at the lengths in a font file before it is
    parsed.
  - `picture`, `encode`: PNG and GIF files.
  - `session`: what a window event leads to, and when the next frame is due.
- `app/` is the program: window, files, arguments, and the floating-point part of the motion,
  the fading and the rasterising of glyphs.
- `tests/` runs the library.

## Floating point

The library holds single-precision numbers as bit patterns and compares them; it does no
floating-point arithmetic. Rows between whole rows, speeds and fading colours are worked out in
`app/` and handed over as whole rows and bytes.

## What is trusted

`png`, `gif` and `ab_glyph` are called through small functions whose contracts are stated and not
proved, in `encode.rs` and `font.rs`. So are `str::to_lowercase` and `String::push`, in `text.rs`.
