# mpxrust

A reader for Microsoft Project `.mpp` files in the MPP14 layout (Project
2010 to 365): project properties, tasks with their hierarchy, dates,
durations and flags, dependencies with lag, resources and assignments.

The library in `src/` is verified with Verus: each public function states
in its contract what it returns, on which inputs it succeeds, and which
error it gives otherwise.

- `blocks/`: the generic blocks of the format (Props dictionaries, VarMeta
  and Var2Data, FixedMeta and FixedData).
- `field_map`: where each field lives in the blocks of a given file.
- `container`: the Compound File Binary container (through the `cfb`
  crate), format detection and password obfuscation.
- `reader/`: tasks, dependencies, resources and assignments, and the
  reading of a whole project (`read_project_file`, `read_mpp_bytes`).
- `dec`, `util`, `text`, `version`: decoding of dates, integers, UTF-16
  strings and of the `CompObj` stream.

Stored work, cost, units and durations are kept as the file stores them;
`app/` turns them into hours, currency, fractions and days (floating-point
arithmetic), reads files from disk, and holds the serde and `Display` forms
of the model and of the errors.
