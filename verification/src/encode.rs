//! The binary-format encoder: lays out key-value string pairs exactly as
//! the decoder expects them, so a producer can emboss metadata into a
//! binary's data section.

use crate::format::{magic_bytes, no_nul, pair_bytes, spec_encode};
use crate::format::{encode_pairs_bytes, lemma_encode_pairs_snoc};
use vstd::prelude::*;

verus! {

/// Encode pairs into the wire layout: magic, count byte, then each key and
/// value as UTF-8 followed by one null byte.
///
/// The format stores the count in a single byte and cannot represent an
/// empty embossing, so between 1 and 255 pairs are accepted; no key or
/// value may contain the terminator character `'\0'`.
pub fn encode_metadata(pairs: &Vec<(String, String)>) -> (r: Vec<u8>)
    requires
        1 <= pairs@.len() <= 255,
        forall|k: int|
            0 <= k < pairs@.len() ==> no_nul(#[trigger] pairs@[k].0@) && no_nul(pairs@[k].1@),
    ensures
        r@ == spec_encode(pairs.deep_view()),
{
    let ghost dv = pairs.deep_view();
    proof {
        assert(dv.len() == pairs@.len());
        assert(forall|k: int| 0 <= k < dv.len() ==> #[trigger] dv[k] == (
            pairs@[k].0@,
            pairs@[k].1@,
        ));
    }
    let mut out: Vec<u8> = Vec::new();
    out.push(0x55u8);
    out.push(0xB0u8);
    out.push(0x77u8);
    out.push(0x1Au8);
    out.push(pairs.len() as u8);
    proof {
        assert(out@ =~= magic_bytes() + seq![dv.len() as u8]);
        assert(dv.take(0) =~= Seq::<(Seq<char>, Seq<char>)>::empty());
        assert(out@ + encode_pairs_bytes(dv.take(0)) =~= out@);
    }
    let mut idx: usize = 0;
    while idx < pairs.len()
        invariant
            dv == pairs.deep_view(),
            dv.len() == pairs@.len(),
            forall|k: int| 0 <= k < dv.len() ==> #[trigger] dv[k] == (pairs@[k].0@, pairs@[k].1@),
            idx <= pairs@.len(),
            out@ == magic_bytes() + seq![dv.len() as u8] + encode_pairs_bytes(
                dv.take(idx as int),
            ),
        decreases pairs@.len() - idx,
    {
        let ghost before = out@;
        out.extend_from_slice(pairs[idx].0.as_str().as_bytes());
        out.push(0u8);
        out.extend_from_slice(pairs[idx].1.as_str().as_bytes());
        out.push(0u8);
        proof {
            lemma_encode_pairs_snoc(dv, idx as int);
            assert(out@ =~= before + pair_bytes(dv[idx as int]));
            assert(out@ =~= magic_bytes() + seq![dv.len() as u8] + encode_pairs_bytes(
                dv.take(idx as int + 1),
            ));
        }
        idx = idx + 1;
    }
    proof {
        assert(dv.take(dv.len() as int) =~= dv);
    }
    out
}

} // verus!
