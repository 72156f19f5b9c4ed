# slipcase-desktop

A desktop window over Slipcase containers: a ZIP holding one payload file and
the TOML metadata that describes it. The window opens a container, states the
`slpc` library's verdict on it, shows a card for the payload and a tree for the
metadata, and extracts, replaces and packs payloads.

## Layout

- `src/` is the library, verified with Verus: what the window decides and what
  it says. Each public function carries a contract, and the laws the
  application promises are proof functions beside the code they are about.
  - `potext`: message catalogues in the GNU `.po` format, the lookups in the
    language in force, and filling placeholders in one pass.
  - `card`, `size`: the payload card's lines, and a byte count as a double
    prints it, done in integers.
  - `policy`, `naming`: which metadata keys are protected and how names are
    shown escaped; whether a chosen file can become a payload.
  - `opens_with`: reading what Linux, macOS and Windows hand back about the
    application that opens a payload.
  - `corpus`: what the conformance corpus runner decides: where a case's
    verdict, tree and card disagree with the manifest, and what each
    extraction, replacement, rewrite and rename round trip came to.
  - `provenance`, `system_theme`, `verdict`, `actions`, `extraction`,
    `tree`, `watch`: the remaining decisions of the window.
  - `text`: what `str`'s searching and trimming methods mean, and the loops
    that do them.
- `tests/` runs the library on concrete values.
- `app/` is the program: the egui window, the file and platform I/O, and the
  conformance corpus runner (`slipcase-desktop corpus <dir>`).
