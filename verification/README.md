# minfetch

A tiny, pane-aware system-info readout for terminals, with its logic verified
by Verus.

- `src/` is the verified library: the config file and command line
  (`config`), the parsing of what the machine reports and the fallbacks
  between sources (`fetch`), the choice of rows and the snapshot (`rows`),
  the layout of the readout, the probe and the JSON output (`render`), and
  the text and number handling they share (`text`, `number`, `width`).
  `laws` and `fit` prove what holds of the readout as a whole: it never has
  more lines than the pane is high nor (for text without control or joining
  characters) wider lines than the pane is wide, it writes no escape code when colour is off and colour adds
  nothing but codes, only selected rows are shown, the config's defaults
  apply and each flag overrides its own field, `NO_COLOR` keeps colour off,
  and JSON escaping reads back as the text it came from.
- The JSON readout and the `sysinfo` fallbacks are always built in: `--json`
  is always accepted.
- `app/main.rs` is the program: it reads files, runs commands, asks the
  terminal for its size, watches for resizes and prints what the library
  returns.
- `tests/` runs the library on concrete inputs.
