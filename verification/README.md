# mvnx

A Maven wrapper that shows a clean summary of multi-module builds: the reactor
order, the module being built, each module's status and time, the test totals,
and the failures from the Surefire reports with framework stack frames left out.

The library under `src/` is verified with Verus:

- `text`: character classes (Unicode `White_Space`, `Nd`), trimming, searching,
  and the string helpers the other modules build on.
- `maven_line`: the lines of Maven's output that the wrapper reads: reactor
  entries (`1. module`), module starts (`[INFO] Building module 1.0`) and Surefire
  test totals (`Tests run: 5, Failures: 1, Errors: 0, Skipped: 0`).
- `stack_trace`: stack traces without the frames of framework packages.
- `surefire`: the failures and errors of a Surefire XML report.
- `progress`: the state kept while Maven's output is read, one line at a time,
  and what each line asks to be shown.
- `report`: the build summary, what follows it, which report files are read and in
  what order, and what a report file adds.
- `cli`: the command line.
- `clipboard`: which clipboard tool is looked for next, and which one copies.
- `spinner`: what the spinner shows at each tick, and when a joke is due.

Each function states its result exactly, over spec functions of the line
formats; the `lemma_*` proof functions state the properties that hold across
calls (summary lines read back as their counts, filtering twice changes nothing,
the reading of the output keeps its state well formed, and so on).

`app/` runs Maven, reads its output, prints, times the build, reads the report
files, fetches jokes and copies to the clipboard.
