# pipeline

An asset pipeline for Halo Wars: it loads the game's tables and per-object
asset chains, checks their cross-references, tracks edits, plans saves to an
override directory, merges mods and watches the override directory for
changes.

## Layout

- `src/` is the library, written in Verus. Every function states what it
  returns or changes in `requires` / `ensures` over mathematical models
  (`Seq`, `Set`, `Map`, association lists) and is proved. The laws that
  span several functions are public proof functions:
  - `edit.rs`: dirty tracking (marking a key and clearing it again, a
    whole-table edit surviving a cleared key, the clean set), and table and
    asset game paths reading back as what they came from;
  - `save.rs`: a clean world writes nothing, a save writes only dirty tables;
  - `merge_laws.rs`: what a table merge keeps, that the last change wins,
    that new rows survive, that no mods give the base back, and that
    agreeing edits merge without conflict;
  - `source.rs`: the last loaded archive, the last added folder and a
    replacing layer win, and an additive layer never overrides;
  - `diagnostics.rs`: validation reports no errors, a consistent world
    validates clean, every dangling reference (visual, tactics, physics,
    squad unit, leader civ, tactics weapon type) is reported by name,
    duplicate names are counted after the first, and the severity counts
    add up;
  - `validate.rs`: the pass / fail / missing counts of a run add up;
  - `watch.rs`: a batch of file changes reloads each asset once and
    re-validates once exactly when some reload succeeded.
- `tests/` runs the library on concrete values.
- `app/` is the command-line program around the library: reading archives
  and binary XML, decoding the database documents, file I/O, the watcher and
  the `validate` / `load` / `save` / `resolve` commands.
