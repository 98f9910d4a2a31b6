# typstation

The core of a desktop editor for Typst documents, written in Verus: the
public functions in `src/` carry contracts that the verifier proves, and the
few calls into outside code (the `regex` crate and some `std` character and
string routines) sit behind small trusted wrappers whose contracts say what
those routines promise.

## Layout

- `src/` — the verified library.
  - Documents and tabs: `document` (one document, the list of open
    documents), `tabs` (closing, reopening and saving tabs, the questions
    about unsaved changes, what the session keeps), `external_changes`
    (watching the project folder and taking in changes made on disk),
    `opening` (opening files from the tree, a dialog or a drop),
    `session`, `session_writes` (the stored session and when it is written).
  - Project: `project` (the tree, file operations and their refusals),
    `workspace` (what the project side remembers and how it follows file
    operations and scans), `paths`, `sorting`.
  - Search and editing: `search` (literal search through the `regex`
    crate), `find_replace`, `project_search`, `edits`, `formatting`.
  - Compilation: `compiler` (requests and their coalescing),
    `compile_target` (which document is compiled and which unsaved texts go
    with it), `previewing` (when the preview compiles and which result it
    shows), `exporting`, `source_map`, `language`.
  - Interface rules: `interface`, `menus`, `app_menus`, `shortcuts`,
    `settings`, `display`, `ui/`.
- `tests/` — tests run against the compiled library.
- `app/` — a small command-line front end: it reads and writes files, runs
  the project operations on disk and prints what the library decides.

Laws of the library — properties that span several calls — are public proof
functions named `law_…`.
