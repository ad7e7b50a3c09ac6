# apollo

A declarative plotting engine in the grammar-of-graphics style: columnar data,
graphs, trees and grids go in with a `PlotSpec`; a backend-neutral scene comes
out and is drawn by a CPU rasteriser, an SVG writer or a WGPU renderer.

## Layout

- `src/` is the verified core, checked by Verus:
  - `types`, `column`, `table`, `assoc`: diagnostics and columnar data;
  - `graph`, `tree`, `grid`: structured data with their well-formedness checks;
  - `mapping`, `plot`, `validate`: plot specifications and their validation;
  - `layout`, `facet`: layer assignment, depths, facet grids and row subsets;
  - `scene`: the node arena and the pre-order walk of drawable nodes;
  - `raster`, `glyph`, `markup`: the RGBA image, lines, triangles, discs,
    rectangles, bitmap text and XML escaping.
- `app/` is the rest: floating-point scale and coordinate arithmetic, camera
  projection and picking, graph and tree positions, SVG text output and the
  WGPU backend. It calls the library for every decision the library can make.
- `tests/` exercises the library on concrete values.
