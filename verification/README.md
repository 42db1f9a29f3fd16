# bear_flag

A library and HTTP service that generate pride flags: vertical color stripes
with a smooth 16-pixel blend between neighbors, an optional bear paw drawn
over them with "over" alpha compositing, encoded as PNG, JPEG or WebP.

- `src/` is the library, verified with Verus: presets (`types`), configuration
  and validation (`config`), query handling (`query`), color-list parsing
  (`colors`), path and format detection (`path`, `format`), the raster canvas
  with stripes and compositing (`raster`), flag assembly and encoding (`flag`),
  errors (`error`) and number formatting (`text`).
- `app/` is the service around it: the axum router and handlers, the paw
  rasterized from SVG with resvg, file output (`render <output-path> [preset]`
  writes one flag to a file), server start-up and tracing.

Query parameters of `GET /flag`: `preset`, `pride` (or `flag`), `width`,
`height`, `format`, `colors`, `stripe_count`, `paw_size`, `center_paw`,
`transparent`, `include_overlay`.
