# writee

The verified core of writee, a handwriting whiteboard whose documents are
collections of canvas objects (strokes, arrows, text boxes, shapes, note
cards, links, images) stored per file in a workspace folder.

`src/` is checked by Verus. It holds the document and its undo history, the
text caret rules, note cards and their links, the workspace's file naming,
renaming, trash and tree, the sidebar walk, tags, search and its cache, the
command palette, keyboard shortcuts, markdown styling and export text,
recovery snapshots, settings and themes. Each public function states what it
returns in its `ensures`; the `law_*` proof functions state properties that
span several calls.

`app/` is the unverified shell: floating-point geometry of canvas objects,
SQLite storage, the settings, recovery and workspace files, and the web and
markdown exports. It converts between its serde types and the library's
types and calls the library for every decision.

`tests/` runs the library on concrete values.
