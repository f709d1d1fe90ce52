# inf

`inf` watches source files and, whenever one changes, runs a compile command
and then a run command (`inf --run ./main gcc -o main main.c`).

The crate is written in Verus. `src/` is the verified library:

- `cli` — the parsed command line.
- `config` — how the command line becomes the set of files to watch
  (comma-separated `--monitor` lists, `~/` expansion, input file, file-name
  words of the compile command), the checks a configuration must pass, and
  the paths to watch without repeats.
- `host` — the facts about paths that the file system reported.
- `path` — Unix paths as text: joining, and the normal form under which two
  paths are the same `Path`.
- `output` — colours and the `--debug` report.
- `command` — one compile/run cycle as a state machine: which commands run,
  in which output mode, and what is printed around them.
- `watch` — the watch loop as a state machine, change detection by file
  metadata, and the directories to watch.
- `text`, `unique` — splitting, joining and de-duplicating text.

`app/` is the program around it: argument parsing with clap, the file
system and environment, process groups and terminal handling, and the file
watcher. It performs the library's actions and reports events back.
