# niels1020_graphics_engine

A small game engine on wgpu and winit. The library under `src/` is the part
whose behaviour is stated in contracts and proved:

- `atlas` — texture atlas: images side by side in one strip, found by name;
  the layout, the name lookup and which image is pasted where are proved,
  while the pixels themselves come from the `image` crate, whose calls are
  trusted and named in the contracts;
- `glyph`, `colour`, `text` — the pixels a text shaper draws, cropped into the
  RGBA bytes of an image; colours packed as cosmic-text packs them; text
  bookkeeping;
- `commands`, `engine`, `events` — the command queue of input handlers, the
  window table that executes it, and how a window reacts to an event;
- `children`, `surface`, `demo`, `common` — layer children by name, surface
  size, the example objects' update state, shared constants.

`app/` holds the GPU, windowing and threading code that uses the library.
