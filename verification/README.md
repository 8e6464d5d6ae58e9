# img2pb2

IMG2PB2 inserts a picture into a PB2 XML level as `<bg>` background objects.

- `src/` is the library, verified with Verus:
  - `text.rs`: Unicode whitespace trimming, XML attribute escaping, decimal and hexadecimal rendering.
  - `material.rs`: the background material field (numbers 0 to 16 or custom `c...` values) and material names.
  - `raster.rs`: the RGBA raster type and the expansion of decoded sample layouts into it.
  - `decode.rs`: PNG (`png`), JPEG (`jpeg-decoder`) and other formats (`image`) into rasters.
  - `convert.rs`: insert modes, which pixels become objects and in which order, and the text of each object.
  - `session.rs`: the state of an editing session and the decision taken on each event.
- `app/` is the desktop program (eframe window, file dialogs, conversion thread); positions and sizes are
  floating-point values and are computed there.
- `tests/` exercises the library on concrete values.
