# ox_editor

The state of a modal text editor, with every operation's contract proved by
Verus.

- `src/editor` holds the tables of buffers, windows and tabpages under one
  `Editor`, and what edits, splits, switches, directory changes and terminal
  output do to them. `Editor::wf` is the invariant that every operation keeps.
- `src/buffer.rs`, `src/window.rs`, `src/splice.rs` and `src/links.rs` are the
  parts it is made of: text, viewports, how positions follow an edit, and how
  the tables refer to each other.
- `src/decoration.rs` is the registry of decoration providers and the
  decorations that live for one redraw.
- `src/diffmode.rs` is diff mode. Texts are compared by the `similar` crate.
- `src/efm.rs`, `src/efm_format.rs`, `src/efm_names.rs` and `src/efm_lookup.rs`
  compile `'errorformat'`, list the names that an error line makes worth looking
  up, and read the line. Where the compiled patterns match it is handed in.
- `src/builtins` holds the window, tag stack and server functions of the script
  language, `src/options.rs` the options that they read and set.
- `src/excmd.rs` checks the arguments of Ex commands.
- `src/messages.rs` routes and replaces messages.

What reads files, changes the working directory, listens for clients or keeps
undo trees and tag stacks is in `app/`; it hands plain values to the library.
