//! Histories whose states the parser takes, and texts that say what their bytes do.

use vstd::prelude::*;
use vstd::utf8::*;
use crate::editor;

verus! {

/// Whether the parser takes some bytes, and every state of a history of them.
#[verifier::opaque]
pub open spec fn parsable(
    setup: int,
    bytes: Seq<u8>,
    past: Seq<(Seq<u8>, Seq<u8>)>,
    future: Seq<(Seq<u8>, Seq<u8>)>,
) -> bool {
    &&& !editor::unparsable(setup, bytes)
    &&& forall|i: int| 0 <= i < past.len() ==> !editor::unparsable(setup, (#[trigger] past[i]).0)
    &&& forall|i: int|
        0 <= i < future.len() ==> !editor::unparsable(setup, (#[trigger] future[i]).0)
}

/// Whether a text is what some bytes spell, where they spell one.
#[verifier::opaque]
pub open spec fn mirrored(bytes: Seq<u8>, source: Seq<char>) -> bool {
    valid_utf8(bytes) ==> bytes == encode_utf8(source)
}

/// The text that bytes spell mirrors them, and where they spell none, every text does.
pub proof fn lemma_mirrored(bytes: Seq<u8>, source: Seq<char>)
    ensures
        mirrored(
            bytes,
            if valid_utf8(bytes) {
                decode_utf8(bytes)
            } else {
                source
            },
        ),
        mirrored(encode_utf8(source), source),
{
    reveal(mirrored);
    if valid_utf8(bytes) {
        decode_utf8_encode_utf8(bytes);
    }
}

/// A step to bytes that the parser takes leaves a history that it takes.
pub broadcast proof fn lemma_parsable_stepped(
    setup: int,
    bytes: Seq<u8>,
    held: Seq<u8>,
    past: Seq<(Seq<u8>, Seq<u8>)>,
    future: Seq<(Seq<u8>, Seq<u8>)>,
    new: Seq<u8>,
)
    requires
        #[trigger] parsable(setup, bytes, past, future),
        !editor::unparsable(setup, new),
    ensures
        #[trigger] parsable(
            setup,
            new,
            editor::capped(past.push((bytes, held))),
            Seq::<(Seq<u8>, Seq<u8>)>::empty(),
        ),
{
    reveal(parsable);
    let pushed = past.push((bytes, held));
    let kept = editor::capped(pushed);
    assert forall|i: int| 0 <= i < kept.len() implies !editor::unparsable(
        setup,
        (#[trigger] kept[i]).0,
    ) by {
        let k = i + pushed.len() - kept.len();
        assert(kept[i] == pushed[k]);
        if k < past.len() {
            assert(pushed[k] == past[k]);
        }
    }
}

/// So does a step folded into the one before it.
pub broadcast proof fn lemma_parsable_coalesced(
    setup: int,
    bytes: Seq<u8>,
    past: Seq<(Seq<u8>, Seq<u8>)>,
    future: Seq<(Seq<u8>, Seq<u8>)>,
)
    requires
        parsable(setup, bytes, past, future),
        past.len() > 0,
    ensures
        #[trigger] parsable(setup, bytes, past.drop_last(), future),
{
    reveal(parsable);
}

} // verus!
