# suono

Suono draws live audio as spectrograms, waveforms and timelines. This crate
holds the parts of it that are proved with Verus:

- `src/text.rs`: character-level trimming, searching, splitting into lines
  and pieces, and reading decimal and hexadecimal numbers.
- `src/color.rs`: colours and their `RRGGBB` notation.
- `src/config.rs`: the configuration file (`parameter = value` lines, a
  global section and `[graphic]` sections) and its settings.
- `src/layout.rs`, `src/waveform.rs`: where an element sits in the window.
- `src/history.rs`, `src/timeline.rs`: the ring of recent loudness values and
  the order the timeline draws it in.
- `src/pw_connections.rs`: which PipeWire links are still missing, read from
  the output of `pw-link -l`.

`app/` is the program around it: the window and drawing (raylib), audio
capture (cpal), the Fourier transform and colour blending in floating point,
and running `pw-link`.
