# githerb

Code review and a gate for trunk, kept in the repository as refs and notes.
An agent proposes a slice of work, people annotate lines, the agent answers,
and the proposal lands once nothing on its head revision is open and every
required check passed.

## Layout

- `src/` is the library, verified with Verus: the proposal aggregate and the
  rules of landing (`proposal`, `proposal/views`, `proposal/laws`), every
  record kind (`comment`, `reply`, `resolution`, `rationale`, `check`,
  `chunk`, `work`), the line format both logs are stored in (`wire`), the
  timestamp and calendar arithmetic behind it (`timestamp`, `calendar`,
  `number`), the unified diff reader (`patch`), what git prints when the
  notes are read (`batch`), the texts a person or an agent reads (`format`,
  `handover`) and the steps each command takes (`usecase`).
- `app/` is the program around it: git run as a process, the configuration
  file, the clock and the environment, JSON read into the library's plain
  line values, and one function per command.
- `tests/` runs the library on concrete values.

Each law the library keeps is a public proof function whose name starts with
`law_`, next to the functions it speaks of.
