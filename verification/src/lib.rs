//! The heart of a structured text editor: a document with a caret, edited by byte offsets
//! while its syntax tree stays in step, and what frontends need to show it.

pub mod blocks;
pub mod caret;
pub mod coloring;
pub mod counts;
pub mod deleting;
pub mod doc;
pub mod edges;
pub mod editor;
pub mod edits;
pub mod erasing;
pub mod format;
pub mod frame;
pub mod gestures;
pub mod history;
pub mod html;
pub mod indent;
pub mod indenting;
pub mod inlines;
pub mod inputs;
pub mod keeping;
pub mod keys;
pub mod laws;
pub mod lines;
pub mod listing;
pub mod lists;
pub mod marking;
pub mod marks;
pub mod modes;
pub mod motion;
pub mod moves;
pub mod node;
pub mod outline;
pub mod painting;
pub mod pasting;
pub mod reach;
pub mod respell;
pub mod session;
pub mod sides;
pub mod source;
pub mod structuring;
pub mod style;
pub mod syntax;
pub mod tables;
pub mod text;
pub mod typing;
pub mod visual;
pub mod words;
