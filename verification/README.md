# towavue_export

Media export logic for the towavue runtime, written in Verus. The
executable functions in `src/` carry `requires`/`ensures` contracts that
Verus proves, except the small trusted wrappers around outside crates,
whose contracts Verus assumes.

- `src/` — the verified library: export preflight and publication checks,
  encoder argument and filter-graph construction (trims, timelines,
  high-depth video), audio and metadata option validation, loudness report
  reading, image transparency judgement, and byte-level scanners and rewriters for PNG/APNG text and
  animation, JPEG XMP, GIF frames and AVIF (ISO-BMFF) sequences.
  `src/laws.rs` and `src/apng_laws.rs` hold properties that relate several
  operations, among them that scanning an assembled APNG finds its plays
  and delays.
- `tests/` — tests on concrete inputs, run against the compiled library.
- `app/` — the unverified shell: encoder processes, files, staging
  directories, FFmpeg probing and demuxing, the drivers that hand staged outputs to the
  library's container rewrites, and the floating-point parts (loudness
  arithmetic, float alpha samples).

Calls into `crc32fast`, `flate2`, `gif`, `png` and `image` sit behind
those wrappers; where a crate's result takes pages to state, the wrapper
names it with an uninterpreted spec function, and the library's contracts
are stated over that name.
