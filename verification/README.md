# fast2d

The logic of a small 2D drawing library, verified with Verus.

- `src/` is the verified library: splitting text into words and wrapping it into
  lines (`backend/backend_canvas/text_layout.rs`), reading the family, style and
  weight that a font file declares and deciding the outcome of font registration
  (`backend/backend_canvas/register_fonts.rs`, through `ttf-parser`), CSS font
  weights and families (`backend/backend_canvas.rs`, `object2d/`), and the error
  types with their messages (`backend.rs`, `fetch_file.rs`).
- `app/` is the HTML canvas renderer around it: the drawable objects, whose
  geometry is floating point, drawing through `web-sys`, font registration with the
  browser and file fetching.
- `tests/` runs the library on concrete values.
