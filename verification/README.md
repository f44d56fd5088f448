# rblog

A blog engine whose core is verified with Verus.

- `src/` is the library. It splits a post file into its YAML front matter
  and Markdown body, normalises slugs, keeps posts (by slug) and
  attachments (by file name) without duplicates, lists dated posts newest
  first and pages that listing, decides how post and attachment requests
  are answered, and holds the file watcher's decisions as a state machine.
  Markdown rendering (`comrak`, `pulldown_cmark`), slugs (`slug`), dates
  (`chrono`), two string functions of std and `Path::join` are called through trusted
  items with stated contracts. Posts (keyed by slug) and a post's
  attachments (keyed by file name) are held as vectors whose keys are
  distinct, with a map as their view: vstd's specification of `HashMap`
  gives no usable contract for `String` keys.
- `app/` is the program around it: the command line (`argh`), the
  configuration files (`schematic`, `serde_yaml`), reading the posts
  directory, the web server (`salvo`, `tokio`) and the watcher's file-system
  side (`notify`, `arc-swap`).
- `tests/` exercises the library on concrete values.
