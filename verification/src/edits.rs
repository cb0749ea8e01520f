//! What kind of edit some typed text makes.

use vstd::prelude::*;
use crate::modes::EditKind;
use crate::text;

verus! {

/// The kind of edit that typing some text is: a lone character that is not a newline
/// continues a run of typing.
pub open spec fn typed_kind(text: Seq<char>) -> EditKind {
    if text.len() == 1 && text[0] != '\n' {
        EditKind::Insert
    } else {
        EditKind::Other
    }
}

/// The kind of edit that typing `text` is.
pub fn typed_edit_kind(text: &str) -> (r: EditKind)
    ensures
        r == typed_kind(text@),
{
    let chars = text::chars_of(text);
    if chars.len() == 1 && chars[0] != '\n' {
        EditKind::Insert
    } else {
        EditKind::Other
    }
}

} // verus!
