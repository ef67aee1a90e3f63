# sora_remake_merge

Lays the Xseed English text of *Trails in the Sky* scene scripts onto the
EVO Voice mod's scripts, so that each line reads as Xseed wrote it while
keeping EVO's voice cues and every other non-text argument.

Every localizable call (dialogue, narration, map names, menu entries,
speaker labels) is classified by an *anchor key*; within a function the
`n`-th call of a key receives the other edition's `n`-th run of that key
(its last once the runs are used up). Bodies the decompiler could not lift
to a tree are replaced by the other edition's tree, with the voice cues
recovered from the bytecode put back in place.

## Layout

- `src/` — the verified library (Verus):
  - `ast.rs` — the scene-script model and its views;
  - `anchor.rs` — classification of localizable calls;
  - `text_run.rs` — text runs: reading, building, replacing;
  - `walker.rs` — the traversal that hands each call to a visitor;
  - `swap.rs` — the merge: run index, positional matching, statistics,
    body substitution;
  - `voice.rs` — voice cues recovered from bytecode and re-injected;
  - `verify.rs` — the localization-delta check of a merge;
  - `coverage.rs` — localizable calls counted by anchor kind, and two
    editions compared function by function;
  - `batch.rs` — totals over a tree of scripts, audit entries tagged by
    file, and the console lines of the three tools;
  - `audit.rs` — the text of the audit reports and console labels;
  - `io.rs` — parse errors and byte offsets to lines;
  - `stability.rs` — a call keeps its classification when a run that
    fits its key is spliced in; a voice pair inserted after a narration
    prefix keeps its key;
  - `rewriting.rs` — the calls of a rewritten body are the calls handed
    in, with the visitor's answers in place of their runs;
  - `laws.rs` — properties spanning the parts: positional matching,
    what one visit answers and what a visitor's statistics count, a merge
    keeps every anchor and changes only runs, it applies exactly the other
    edition's changes to the original text, merging again changes nothing
    (unless a portrait call with arguments between its tag and its text,
    such as a voice pair, is handed a run without text: emptied, it is no
    longer a localizable call, drops out of the next merge and shifts the
    calls after it), a script merged with itself is unchanged, statistics
    stay consistent, the index stays well formed.
- `tests/` — scenarios run against the compiled library.
- `app/` — the command line: reading and writing `.ing` files with the
  parser crate, the merge over a directory tree, the audit files, and the
  `verify-delta` and `compare-xseed` tools.
