//! Serialization of assembled words: two bytes per word, high byte first.
use vstd::prelude::*;

verus! {

/// The byte image of a word sequence: each word contributes its high byte,
/// then its low byte.
pub open spec fn spec_words_to_bytes(ws: Seq<u16>) -> Seq<u8> {
    Seq::new(
        2 * ws.len(),
        |i: int|
            if i % 2 == 0 {
                (ws[i / 2] / 256) as u8
            } else {
                (ws[i / 2] % 256) as u8
            },
    )
}

/// Takes the assembled words and lays them out as bytes, big-endian, in
/// order: twice as many bytes as words.
pub fn words_to_bytes(instrs: &Vec<u16>) -> (r: Vec<u8>)
    ensures
        r@ == spec_words_to_bytes(instrs@),
        r@.len() == 2 * instrs@.len(),
{
    let mut bytes: Vec<u8> = Vec::new();
    let mut i: usize = 0;
    while i < instrs.len()
        invariant
            0 <= i <= instrs@.len(),
            bytes@.len() == 2 * i,
            forall|k: int|
                0 <= k < bytes@.len() ==> bytes@[k] == #[trigger] spec_words_to_bytes(instrs@)[k],
        decreases instrs.len() - i,
    {
        let w = instrs[i];
        bytes.push((w / 256) as u8);
        bytes.push((w % 256) as u8);
        proof {
            assert((2 * i as int) % 2 == 0 && (2 * i as int) / 2 == i as int);
            assert((2 * i as int + 1) % 2 == 1 && (2 * i as int + 1) / 2 == i as int);
        }
        i = i + 1;
    }
    proof {
        assert(bytes@ =~= spec_words_to_bytes(instrs@));
    }
    bytes
}

} // verus!
