# todoozy

Todos as code: `tdz` finds TODO comments in the source files of a repository and
lists, filters, counts and summarises them.

The library under `src/` is written in Verus; every function there is verified against
its contract:

- `lang`: the comment scanners for each supported language, the syntax used for each
  file type (`lang::files`), and the extraction of TODOs from comments (`lang::laws`
  states what holds of every text they read, line numbers included);
- `syntax`: a TODO's own text (identifier, priority, dates, title, `+project`,
  `@context` and `key:value` tags, description), and writing an identifier into the
  source line that opens it;
- `comments`: `//` and `/* */` comments on their own;
- `fs`: file types by name and by shebang;
- `filter`: filter expressions, their grammar and their evaluation on a TODO;
- `sort`: sort pipelines such as `priority:asc > creation_date:desc`, and a stable sort
  of TODOs by them;
- `summary`, `totals`: tag and priority counts, the summary text and the tag table, and
  what the counts add up to;
- `catalog`, `lint`: projects and contexts in use, numbering of TODOs without an
  identifier, duplicate and dangling identifiers;
- `display`, `view`, `tui`: shortened paths, the rows and details the terminal
  interface shows, its input line, its keys and the state they change;
- `cli`: values read from the command line;
- `todo`, `text`: the TODO record and byte-level text helpers.

`app/` holds the program around it: arguments, the configuration file, the walk over
the files, and printing.
