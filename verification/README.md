# slint_omarchy

The host-side logic of the Omarchy component gallery, written in Verus and
proved against its contracts.

- `src/color.rs`: RGBA colours, reading `#RGB`, `#RGBA`, `#RRGGBB` and
  `#RRGGBBAA`, and writing them back in upper case.
- `src/theme.rs`: the built-in palettes and the palette of an Omarchy
  `colors.toml` (read with the `toml` crate), with its defaults and errors.
- `src/calendar.rs`: month pages of the calendar (dates from `chrono`),
  shifting between months and choosing weekdays.
- `src/toast.rs`: the countdown of the "saved" toast, with pause and resume.
- `src/tree.rs`: the file tree with expansion, cursor and selection.
- `src/gallery.rs`: the page catalogue, sidebar and choice-list navigation,
  zoom limits and workspace names.
- `src/text.rs`: character-level helpers.

`app/main.rs` holds what stays outside the proofs: reading the theme from
disk, the floating-point colour maths (luminance, contrast, HSLA), opening
links in a browser, and a small command-line front end.
