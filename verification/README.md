# depgraph

Dependency-graph tooling for Maven projects: POM dependency graphs (as the
depgraph Maven plugin writes them), class-level data flows, library pairs
found by a Datalog analysis, the classes each dependency jar contains, and
the paths of SARIF reports. Each of them becomes Datalog facts or Graphviz
dot.

- `src/` is the library, written in Verus: every function carries a
  contract, and the laws of the graphs (origins have no incoming edge,
  direct dependencies are not origins, degree maps cover every node, the
  filters keep exactly the matching flows, sorted names are distinct, ...)
  are proof functions.
- `app/` is the command-line program around it: argument handling, files,
  Maven, git and HTTP. Each tool is a subcommand (`pomfact`, `dpfact`,
  `class-dot`, `analyze`, `mine-api-usage`, `rank-api`, ...).
- `tests/` exercises the library on concrete inputs.
