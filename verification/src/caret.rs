//! The caret and selection at one moment, and the bytes that carry them through a
//! document's history.

use vstd::bytes::*;
use vstd::prelude::*;

verus! {

/// The caret and selection at one moment.
#[derive(Clone, Copy, PartialEq, Eq, Debug, Structural)]
pub struct CaretState {
    pub caret: usize,
    pub anchor: Option<usize>,
}

impl CaretState {
    /// The bytes that stand for the state: the caret, whether there is an anchor, and the
    /// anchor.
    pub open spec fn blob(self) -> Seq<u8> {
        spec_u64_to_le_bytes(self.caret as u64) + (match self.anchor {
            Some(anchor) => seq![1u8] + spec_u64_to_le_bytes(anchor as u64),
            None => seq![0u8, 0u8, 0u8, 0u8, 0u8, 0u8, 0u8, 0u8, 0u8],
        })
    }

    /// The state that bytes stand for: none where they are not as many as a state's.
    pub open spec fn of_blob(blob: Seq<u8>) -> Option<CaretState> {
        if blob.len() != 17 {
            None
        } else {
            Some(
                CaretState {
                    caret: spec_u64_from_le_bytes(blob.subrange(0, 8)) as usize,
                    anchor: if blob[8] != 0 {
                        Some(spec_u64_from_le_bytes(blob.subrange(9, 17)) as usize)
                    } else {
                        None
                    },
                },
            )
        }
    }

    /// Pack into the bytes that the history carries.
    pub fn to_blob(self) -> (r: Vec<u8>)
        ensures
            r@ == self.blob(),
            r@.len() == 17,
    {
        proof {
            lemma_auto_spec_u64_to_from_le_bytes();
        }
        let mut out: Vec<u8> = u64_to_le_bytes(self.caret as u64);
        match self.anchor {
            Some(anchor) => {
                let mut tail: Vec<u8> = u64_to_le_bytes(anchor as u64);
                out.push(1);
                out.append(&mut tail);
            },
            None => {
                let mut i: usize = 0;
                while i < 9
                    invariant
                        i <= 9,
                        out@ == spec_u64_to_le_bytes(self.caret as u64) + Seq::new(
                            i as nat,
                            |k: int| 0u8,
                        ),
                    decreases 9 - i,
                {
                    out.push(0);
                    i = i + 1;
                }
                assert(Seq::new(9, |k: int| 0u8) =~= seq![
                    0u8,
                    0u8,
                    0u8,
                    0u8,
                    0u8,
                    0u8,
                    0u8,
                    0u8,
                    0u8,
                ]);
            },
        }
        assert(out@ =~= self.blob());
        out
    }

    /// Recover a state from the bytes that the history carries, or `None` when they are
    /// not as many as a state's: a state that never had a caret set on it.
    pub fn from_blob(blob: &[u8]) -> (r: Option<CaretState>)
        ensures
            r == CaretState::of_blob(blob@),
    {
        if blob.len() != 17 {
            return None;
        }
        let caret: u64 = u64_from_le_bytes(vstd::slice::slice_subrange(blob, 0, 8));
        let anchor: u64 = u64_from_le_bytes(vstd::slice::slice_subrange(blob, 9, 17));
        Some(
            CaretState {
                caret: caret as usize,
                anchor: if blob[8] != 0 {
                    Some(anchor as usize)
                } else {
                    None
                },
            },
        )
    }

    /// What is packed is recovered.
    pub proof fn law_blob_keeps_state(self)
        ensures
            CaretState::of_blob(self.blob()) == Some(self),
    {
        lemma_auto_spec_u64_to_from_le_bytes();
        let blob = self.blob();
        assert(blob.subrange(0, 8) =~= spec_u64_to_le_bytes(self.caret as u64));
        if let Some(anchor) = self.anchor {
            assert(blob.subrange(9, 17) =~= spec_u64_to_le_bytes(anchor as u64));
        }
    }
}

} // verus!
