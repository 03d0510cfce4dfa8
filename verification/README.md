# stcli-core

The deterministic core of a roleplay engine for the command line, with its
behaviour stated in contracts and proved with Verus.

- `src/` is the library. It decides; it does no input or output of its own.
  - `identity`, `json`, `text`, `assoc`, `lists`: identities, values and texts.
  - `artifact`, `artifact_codec`: character cards, lorebooks and presets, the
    containers that they come in, the bundles of codecs, and what is kept of them.
  - `lore`, `macros`, `prompt`, `prompt_diff`, `prompt_inspect`: what a prompt is
    made of, what is left out of it, and how two prompts differ.
  - `plugin`, `interaction`, `egress`, `inference`, `ecma_regex`: what plugins
    are, may do, show and ask for.
  - `capsule`, `capsule_json`, `capsule_transfer`, `session`, `turn`, `state`: turns that are
    exported, imported and replayed.
  - `config`, `document`, `credential`, `paths`, `persona`, `profile`, `protocol`,
    `fixture`: what the host reads and writes. `document` edits TOML texts and
    leaves alone what it does not manage.
  - `engine`: what a host may ask for, and what the engine makes of it.
- `app/` is the host: files, processes, the network, the keyring, the database.
- `tests/` runs the library on concrete values.

Where the library needs to be told something that it cannot work out itself (what
a floating-point number comes to, how many tokens a text has), it says so in its
result; the host answers and calls again.
