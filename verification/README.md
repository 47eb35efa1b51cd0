# mlt_geojson

Converts a WGS84 `GeoJSON` document into the tiles of an MLT `z/x/y.mlt` tree.
The whole document becomes one named layer. Its dimension (2D or 3D) and its
property columns are decided once, for all features; every feature is then
projected, without clipping, into each tile that its bounding box spans, at
every requested zoom level.

- `src/` is the library, verified with Verus.
  - `convert` is the whole conversion, from arguments and text to encoded tiles.
  - `properties` infers the columns and converts property values.
  - `geometry` and `project` inspect geometries and project them into a tile;
    `ordinate` orders doubles by their bits.
  - `placement`, `tiles` and `mercator` decide which features each tile holds.
  - `encode`, `size` and `wkt` turn the features of a tile into a layer.
  - `json` and `mlt` state what is relied on of `geojson`, `serde_json` and
    `mlt_core`.
- `app/` is the `mlt geojson` command: arguments, files, the floating-point
  projection and the encoder of 3D layers, which it hands to the library as
  functions.
- `tests/` runs the library on concrete documents.

The library encodes 2D layers with `mlt_core`. The layers of a 3D document go, with
their Z, to an encoder that the caller supplies. The release of `mlt_core` that
the command is built with has no Z column, so the command refuses 3D documents.
