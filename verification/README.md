# leaf_core

The heart of a structured text editor, verified with Verus. A document is a parsed text
with a caret: every edit is an operation on the text by byte offsets, and the syntax tree
stays in step with it. Frontends draw the document and hand back what the user does.

## Layout

- `src/text.rs`, `lines.rs`, `words.rs`, `indent.rs`, `lists.rs`: text as bytes and
  characters, lines, grapheme clusters, words, indentation and list markers.
- `src/doc.rs`, `history.rs`: the document, its state with its history, and the one way
  that edits go.
- `src/typing.rs`, `deleting.rs`, `blocks.rs`, `inlines.rs`, `motion.rs`, `session.rs`:
  what a user can do to it.
- `src/edges.rs`, `marks.rs`, `respell.rs`: inline marks, their delimiters, and keeping
  both parsed as marks while text is typed at their edges.
- `src/node.rs`, `outline.rs`, `tables.rs`, `editor.rs`: the syntax tree and the editor underneath.
- `src/visual.rs`, `frame.rs`, `counts.rs`: what a frontend lays out.
- `src/source.rs`, `style.rs`, `syntax.rs`, `html.rs`: styling the source, highlighting
  code, and the clipboard's HTML.
- `src/laws.rs`, `reach.rs`: what holds of the operations together.
- `app/`: the file system around a document.

A frontend lays the rendered view out itself and hands over the map of it
(`visual::VisualMap`): the caret stops with their places, the tables and the media.
