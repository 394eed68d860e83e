# sandbag

Sandbag reads linter output (markdownlint, ESLint, Prettier), finds the rules it names,
scores how sure it is, and writes the settings that silence those rules into the linter's
configuration file, keeping backups of what it changes.

## Layout

- `src/` — the library, verified with Verus: rule extraction per linter, the registry and
  plugins, confidence scoring, similarity measures, the Naive Bayes counts, the ontology and
  semantic analysis, configuration trees and their edits, diffs, conflict detection, the
  backup index, validation, and the state and texts of the command line. Contracts are stated
  over mathematical models (`Seq`, `Map`, spec functions); confidences and weights are
  integers (basis points and hundredths), durations nanoseconds.
- `src/config/document.rs` — reading JSON, YAML and TOML text into document values and
  configuration trees, and trees back into document values, with a proof that a tree read
  from a document writes back as the same document.
- `app/` — the program around the library: argument parsing, files and directories,
  writing document values out through serde, terminal output, prompts and progress bars,
  floating-point scores.
- `tests/` — tests of the library through its public interface.
