# discord_theme_editor

A theme editor for the Discord desktop client. It keeps a theme as ten
colours (each optionally replaced by custom CSS), previews it on an SVG
picture, and applies it by rebuilding Discord's `app.asar` so that its
bootstrap script injects a style sheet overriding Discord's colour variables.

Layout:

- `src/` — the verified library (Verus):
  - `text.rs`: whitespace, trimming, splitting, comparison and replacement on
    string slices, each proved against a specification over characters;
  - `css_gradients.rs`: parsing of `linear-gradient(..)` and
    `radial-gradient(..)` values;
  - `theme.rs`: CSS colour notation, the injected style sheet and the preview
    style sheet and picture;
  - `archive.rs`: rebuilding the archive through the `asar` crate.
- `app/` — the command-line program: file and Discord installation handling,
  HSV colours in floating point, theme files in JSON.
- `tests/` — tests of the library.
