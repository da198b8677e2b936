# gm2tiled

Converts the rooms of a GameMaker `data.win` (GMS1 and GMS2) into Tiled `.tmx` maps and
`.tsx` tilesets, and checks the result pixel by pixel against the room as GameMaker draws it.

The library under `src/` is verified with Verus: every public function states what it
returns in its contract, and the properties that tie the parts together are proved as lemmas.

- `schema`: room, background and sprite records as extracted.
- `tile_flags`: GMS2 tile words and their Tiled global ids with flip bits.
- `convert_detection`: the grid size a room's tiles suggest.
- `convert`: a room into a map, its tilesets and the images to cut (`spec_convert_room`).
- `convert_laws`: id ranges and layer/object ids of every conversion.
- `model`: the Tiled map and tileset model; `export`: the `.tmx` and `.tsx` documents,
  written through `quick_xml`.
- `raster`: pixel images, cropping, and the GMS2 and Tiled tile transforms.
- `render`: the drawing plans of a room and of a map, colours, and picture comparison;
  `render_laws`: what holds between the two plans for converted rooms.
- `regress`: verdicts, notes and the CSV report of a regression batch.
- `rooms`, `extract`, `text`: room lists, extraction tool output, text helpers.

`app/` is the command-line program: argument parsing, running the extraction tool, reading
JSON with serde, texture pages and PNG files with `image`, blending pixels, and writing files.
Started as `gm2tiled_regress`, it runs the regression batch.
