# rfn_edit

The decisions of a text editor for writers, verified with Verus: every function
of the library has a contract, and what the modules promise as a whole stands as
proved laws: in their `laws` files, and, where a law takes a longer proof, in files
of their own (`saving::passes`, `table_edit::rewriting`, `tags::standing`,
`terminal::halves`).

- `terminal`, `terminal_session` – a terminal's screen, fed with what a shell
  writes, and the keys that are sent back.
- `terminal_shells`, `terminal_appearance`, `terminal_panels`,
  `terminal_workflow` – the shells a terminal opens with, how it looks, the
  panels below it, and what the writer does with them.
- `table_edit` – tables in a text: rows, columns and widths (`table_edit::single` is
  the arithmetic that widths are reckoned with).
- `tags` – tags, the search for them and their tree.
- `saving`, `session` – work copies, saving, other programs' changes, and what
  is kept from one run to the next.
- `shortcuts`, `settings_transfer` – the keys of the actions, presets and
  exports of the settings.
- `searcher` – searching a folder.
- `text`, `lines`, `letters`, `numbers`, `matching`, `paths`, `rows`, `text_blocks` –
  what the others share.

`tests/` runs the library. `app/` is a small program around it that reads files,
starts threads and programs, and calls the system.
