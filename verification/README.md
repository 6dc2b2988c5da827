# llmboard-core

The core of LLMBand, a usage board for LLM API providers: a plugin on the phone
polls each provider's balance and usage endpoints as its JSON preset describes,
renders the preset's widget template, and pushes a snapshot to a quick app on the
band.

`src/` is the verified library (Verus):

- `preset`, `validate`, `path`, `expr`: presets, their validation, JSON paths,
  reference and expression syntax;
- `normalize`, `template`: what a response yields by its preset, and which widgets
  and texts a template gives;
- `state`, `backup`: the settings, their credentials and migrations, and restores;
- `usage`, `export`: the usage export archive and its CSV totals;
- `ui`, `engine`, `snapshot`, `capabilities`, `provider`: the decisions of the
  plugin page, the timers, polling and pushing;
- `dates`, `fmt`, `text`, `keyed`, `json`: calendar, number texts, characters,
  keyed lists and JSON values.

`app/` is ordinary Rust around it: JSON (de)serialisation, HTTP, files, logging,
and the floating-point amounts and number formats. `tests/` runs the library.
