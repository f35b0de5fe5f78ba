# hellbender

A verified library for the data of the 1996 game *Hellbender*: its POD
archives, its file formats, the movie player, the soundtrack's sequencer and
the HUD's pictures, each function with a contract that Verus proves.

- `src/pod.rs` reads the POD archives from their bytes.
- `src/formats/` decodes the formats: palettes and colour tables, RAW
  images, terrain grids, MRGL and animated models, levels, courses, mission
  points, fonts, demos and the Smacker movies.
- `src/audio/` decodes `.WAV` effects and ProTracker `.MOD` music, and
  sequences a module's rows (`song.rs`).
- `src/render/` draws the HUD, the briefing and the cockpit art into 8-bit
  frames, holds the frame's pixel drawing, and puts a level together from
  the archives (`level.rs`): its manifest, terrain, textures and their
  half sizes, palette, ramps, types, sky, doors, mission and courses.
- `src/movie.rs` shows a movie: steps it and scales its picture.

`app/` is the program around the library: it opens the archives from disk,
plays a movie by the clock, and holds the engine's float arithmetic, which
is not verified. `tests/` runs the library on values built there and, where
the game's archives are at hand, against them.
