# stella_app

The desktop host of Angry Birds Stella: the account and app-rating
overlays, localized strings, input and timing rules, the system-font label
cache, glyph bitmap decoding, framebuffer capture targets and the integer
PCM mixer.

- `src/` is the verified library. Every function in it has a contract that
  Verus proves; the laws of the library are public proof functions named
  `law_*`. `src/lib.rs` lists the modules.
- `tests/` runs the library on concrete values.
- `app/` is the thin program around it: argument handling, file access,
  clock reads, float gain and sample conversion, and the platform actions
  that leave the process.

Verify with `verus` on `src/lib.rs`; the outside crates are listed in
`Cargo.toml`.
