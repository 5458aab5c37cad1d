# fork

Resolves board definitions into container recipes for firmware builds.

A board definition is a TOML tree of toolchain nodes. Each node may carry detection
rules (files that must exist in the project, optionally mentioning a key), Dockerfile
layer lines (literal, or templated from a value read out of a project file) and a build
command. Walking the tree against a project gives recipes: a label made of the node
names, a Dockerfile made of the accumulated layers, and the command to run.

## Layout

- `src/` — the library, verified with Verus:
  - `text.rs` — joining, searching, replacing, splitting into lines, with their models;
  - `document.rs` — parsed TOML/JSON content and the key search over it;
  - `formats.rs` — parsing TOML and JSON text (through the `toml` and `serde_json`
    crates) into documents;
  - `workspace.rs` — the texts of the project files that the rules look at;
  - `engine.rs` — toolchain trees, detection, layers, recipes, image tags;
  - `boards.rs` — decoding a board document into a board;
  - `builder.rs`, `ui.rs`, `commands.rs`, `detector.rs` — the decisions of the command
    line: runtime choice, container arguments, recipe selection, how an image is
    obtained, baking;
  - `docs.rs` — the "Supported recipes" documentation chapter;
  - `book.rs` — which chapters of the book receive that chapter;
  - `laws.rs` — properties relating the operations to each other.
- `app/` — the `fork` executable: argument parsing, reading project files, and running
  the container runtime. Started as `mdbook-boards` it is the
  documentation preprocessor. Board definitions are read from the directory named by
  `FORK_RECIPES` (default `recipes`).
- `tests/` — tests of the library on concrete boards and projects.
