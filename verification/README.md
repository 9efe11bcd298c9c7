# botforge_plan

The plans of `botforge`: how documents that describe a test or a build of a virtual machine
are read, checked and carried out, written in Rust and proved with Verus.

## What is proved

Every function of the library states what it returns or changes, over mathematical models of
texts, documents, steps and runs. Beside the functions stand the laws of the library as a
whole, as public proof functions: quoted text reads back, a fragment keeps its variables to
itself, secrets do not show in messages, a step begins only while there is time, temporary
files are removed, only a clean stop of a machine counts as success, and others.

## Layout

- `src/` is the library. Work that takes turns with the outside world (a connection to a
  guest, processes, files) is a state machine: a function takes what happened and says what to
  do next.
  - Text: `text`, `strings`, `numbers`, `decimals`, `shell`, `pairs`, `ordered`, `paths`.
  - Documents: `value`, `yaml`, `document`, `sections`, `inputs`, `template`, `passes`,
    `repeat`, `includes`, `cloud_init`, `reference`, `load`, `validate`, `step`, `step_rules`.
  - Runs: `env`, `outputs`, `references`, `scope`, `expect`, `guest`, `run`, `host`, `remote`,
    `streams`, `flow`, `local`, `phases`, `budget`, `waits`, `shutdown`, `staging`, `uploads`.
  - Assertions: `globbing`, `probe`, `checks`, `accounts`, `packages`, `asserts`.
  - What is shown and kept: `logging`, `records`.
- `tests/` runs the library on concrete values.
- `app/` is ordinary Rust around the library: it reads files, runs processes, prints, and
  performs what the library's machines ask for. The connection to the guest, the resolution of
  references, plugins and the engine for conditions are traits there.

## What is trusted

A few calls into other crates and the standard library stand behind items whose contracts are
believed without proof; the comment above each says what is claimed: matching of patterns
(`globbing`), reading and writing of YAML (`yaml`), JSON (`yaml`, `records`), the `{:?}` form
of texts (`expect`), bytes as text (`records`) and `String::push` (`strings`).
