# zeroin

The verified core of a crosshair overlay for Windows.

- `src/text.rs`: Unicode white space, trimming, lowercasing and character
  vectors.
- `src/config.rs`: the crosshair type names, the `config.ini` grammar (sections,
  comments, `key = value ; comment` entries, on/off values) and the colour code.
- `src/shapes.rs`: which shapes make up each crosshair, in which paint, and in
  which order they are painted.
- `src/laws.rs`: properties proved for every input (type names read back,
  white space and ASCII case do not change a type, defaults outside the
  `[crosshair]` section, the last entry wins, an appended entry overrides only
  its own setting, invalid values give defaults, Windows line endings, the
  border painted underneath).
- `app/`: reading `config.ini` from disk, the floating-point settings and the
  Direct2D drawing (Windows only).
