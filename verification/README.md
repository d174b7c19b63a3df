# project_analyser

A toolset that characterises software projects from their git history. It reads
a list of projects, clones them, saves their commit logs, builds weekly activity
time series from each log (commits integrated and authored, distinct integrators
and authors, merges) and extracts features from each series (peaks and valleys,
the sequences between them, quartiles, ...).

Layout:

- `src/` is the library, written in Verus. Its functions carry contracts that
  Verus proves, except for three small trusted wrappers around calls into std
  and the outside crates (chrono's calendar, the csv reader and `String::push`),
  whose contracts are taken as given and are documented where they stand. It
  holds the parsing of the project list and of
  curl's status output, the calendar arithmetic of weeks, the construction of
  the time series, the integer features of a series, the paths of the files kept
  for each project, and the configuration entries.
- `tests/` runs the library on concrete inputs.
- `app/` is the command line program around the library: logging, the
  configuration file, network and git commands, reading files from disk, and
  the features that are floating point numbers (means, deviations, amplitudes).
