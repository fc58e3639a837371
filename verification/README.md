# es-system

EmulationStation system/features configuration generator for REG-Linux, with
its generators proved correct by Verus.

From `es_systems.yml`, `es_features.yml`, the launcher defaults and the set of
installed packages it produces `rs_systems.cfg`, the features file (XML or
JSON), the gettext headers for the translatable texts, and the ROM folder
skeleton with an `_info.txt` per system.

## Layout

- `src/` is the verified library. Every generator is stated as a spec function
  over the inputs (their `IndexMap`s seen as sequences of entries in insertion
  order) and proved to produce exactly that text or document:
  - `generate_systems`: `rs_systems.cfg` and the ROM folder plan;
  - `generate_features`: the XML features file and the texts it records;
  - `generate_json`: the JSON features and systems documents;
  - `translations`: the translation headers and the blacklist;
  - `requirements`, `config`: which cores the installed packages enable;
  - `roms`: the `_info.txt` of each system;
  - `skips`: the features left out for an architecture, as reported on stderr;
  - `laws`: properties that span several functions.
- `app/` is the command-line program: argument handling, file I/O, reading
  the YAML inputs and writing the JSON document through serde, and the
  rendering of YAML floats.
- `tests/` runs the library on concrete inputs.

The calls into `indexmap`, `regex`, `serde_json` (reading the `.keys` files)
and the string case mappings of `std` sit
behind small trusted wrappers whose contracts are documented where they are
declared.
