# wpdiff

Diff locally installed WordPress plugins against their upstream versions on
wordpress.org: find local customizations, export them as a patch, list upstream
versions, and upgrade a plugin while carrying its customizations over.

The library under `src/` holds the logic, each function with a contract that Verus
proves:

- `tree`, `diff`, `content`, `categorize`: comparing a local tree with its upstream
  tree, classifying files, normalizing whitespace, counting changed lines, filtering
  by category and exclusion pattern.
- `output`, `summary`, `table`, `styled`: the terminal views, as styled spans.
- `plugin`, `paths`: the plugin header grammar, and where plugins are looked for.
- `source`: download addresses, the meaning of a download's status, what extracting
  an archive writes, what the plugin-information reply says, and the ordered version
  list.
- `upgrade`, `review`: which changes are carried over, how the outcome of applying
  them is judged, and how fuzzy-matched sections are resolved.
- `cli`, `progress`, `limits`: the command line's decisions, the progress switch, and
  the bounds the renderers need.

`app/` is the command around it: argument parsing, the file system, HTTP, patch
application, prompts and colors. `tests/` exercises the library.
