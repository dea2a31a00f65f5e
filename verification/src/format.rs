//! The mathematical model of the binary wire format: what a buffer's bytes
//! mean, and which buffers are rejected with which error.
//!
//! The executable decoder and encoder carry contracts phrased over
//! [`spec_extract`] and [`spec_encode`]; the general laws about the format
//! (round trip, error taxonomy) are proved in [`crate::props`].

use crate::error::ErrorKind;
use vstd::prelude::*;
use vstd::utf8::{decode_utf8, valid_utf8};

verus! {

/// The four bytes every well-formed buffer begins with: the little-endian
/// encoding of `LEADING_MAGIC_BYTES`.
pub open spec fn magic_bytes() -> Seq<u8> {
    seq![0x55u8, 0xB0u8, 0x77u8, 0x1Au8]
}

/// True when the buffer begins with the magic bytes.
pub open spec fn magic_ok(b: Seq<u8>) -> bool {
    b.len() >= 4 && b[0] == 0x55u8 && b[1] == 0xB0u8 && b[2] == 0x77u8 && b[3] == 0x1Au8
}

/// The magic bytes really are the little-endian rendering of the magic
/// number `0x1A77B055`.
pub proof fn lemma_magic_bytes_are_le_magic_number()
    ensures
        magic_bytes()[0] + 0x100 * magic_bytes()[1] + 0x10000 * magic_bytes()[2] + 0x1000000
            * magic_bytes()[3] == crate::LEADING_MAGIC_BYTES,
{
}

/// The strings recovered from `b` by scanning for null terminators from
/// position `i`, where the segment under construction began at `start`.
///
/// Mirrors the decoder's scan: at a null byte the segment `b[start..i]` is
/// checked for UTF-8 validity and decoded; running out of bytes inside a
/// segment is a missing-terminator error; running out exactly at a segment
/// boundary ends the scan.
pub open spec fn scan_strings(b: Seq<u8>, start: int, i: int) -> Result<Seq<Seq<char>>, ErrorKind>
    decreases b.len() - i,
    when 0 <= start <= i <= b.len()
{
    if i == b.len() {
        if start == i {
            Ok(seq![])
        } else {
            Err(ErrorKind::InvalidEmbossedCString)
        }
    } else if b[i] == 0u8 {
        let seg = b.subrange(start, i);
        if !valid_utf8(seg) {
            Err(ErrorKind::InvalidUtf8)
        } else {
            match scan_strings(b, i + 1, i + 1) {
                Ok(rest) => Ok(seq![decode_utf8(seg)] + rest),
                Err(e) => Err(e),
            }
        }
    } else {
        scan_strings(b, start, i + 1)
    }
}

/// Consecutive strings paired up in order: the first of each pair is a key,
/// the second its value. A dangling unpaired string is dropped.
pub open spec fn pair_up(ss: Seq<Seq<char>>) -> Seq<(Seq<char>, Seq<char>)>
    decreases ss.len(),
{
    if ss.len() < 2 {
        seq![]
    } else {
        seq![(ss[0], ss[1])] + pair_up(ss.skip(2))
    }
}

/// Appending a string to an even-length list adds a dangling key that
/// [`pair_up`] drops; appending to an odd-length list completes a pair.
pub proof fn lemma_pair_up_push(ss: Seq<Seq<char>>, s: Seq<char>)
    ensures
        ss.len() % 2 == 0 ==> pair_up(ss.push(s)) == pair_up(ss),
        ss.len() % 2 == 1 ==> pair_up(ss.push(s)) == pair_up(ss).push((ss.last(), s)),
    decreases ss.len(),
{
    if ss.len() < 2 {
        if ss.len() == 1 {
            let t = ss.push(s);
            assert(t.skip(2) =~= Seq::<Seq<char>>::empty());
            assert(pair_up(t.skip(2)) =~= Seq::<(Seq<char>, Seq<char>)>::empty());
            assert(pair_up(t) =~= seq![(t[0], t[1])]);
            assert(t[0] == ss[0] && t[1] == s);
            assert(pair_up(ss) =~= Seq::<(Seq<char>, Seq<char>)>::empty());
            assert(pair_up(ss).push((ss.last(), s)) =~= seq![(ss[0], s)]);
        } else {
            assert(pair_up(ss.push(s)) =~= Seq::<(Seq<char>, Seq<char>)>::empty());
        }
    } else {
        lemma_pair_up_push(ss.skip(2), s);
        assert(ss.push(s).skip(2) =~= ss.skip(2).push(s));
        if ss.len() % 2 == 0 {
            assert(pair_up(ss.push(s)) =~= pair_up(ss));
        } else {
            assert(ss.skip(2).last() == ss.last());
            assert(pair_up(ss.push(s)) =~= pair_up(ss).push((ss.last(), s)));
        }
    }
}

/// What decoding a buffer yields: the ordered key-value pairs, or the error.
///
/// A buffer without the leading magic (in particular one shorter than 4
/// bytes) is rejected as `IncorrectLeadingMagic`; one whose declared entry
/// count is zero or missing is rejected as `EmptyEmbossing`; from offset 5
/// the scan of [`scan_strings`] decides. The declared count is otherwise
/// not used as a bound: the scan stops when the buffer is exhausted.
pub open spec fn spec_extract(b: Seq<u8>) -> Result<Seq<(Seq<char>, Seq<char>)>, ErrorKind> {
    if !magic_ok(b) {
        Err(ErrorKind::IncorrectLeadingMagic)
    } else if b.len() < 5 || b[4] == 0u8 {
        Err(ErrorKind::EmptyEmbossing)
    } else {
        match scan_strings(b, 5, 5) {
            Ok(ss) => Ok(pair_up(ss)),
            Err(e) => Err(e),
        }
    }
}

/// The key-indexed view of an ordered pair sequence: pairs are entered in
/// order, so a later pair with a repeated key overwrites an earlier one.
pub open spec fn pairs_to_map(pairs: Seq<(Seq<char>, Seq<char>)>) -> Map<Seq<char>, Seq<char>>
    decreases pairs.len(),
{
    if pairs.len() == 0 {
        Map::empty()
    } else {
        pairs_to_map(pairs.drop_last()).insert(pairs.last().0, pairs.last().1)
    }
}

/// True when no character of `s` is the format's terminator, so `s` can be
/// stored as a null-terminated string.
pub open spec fn no_nul(s: Seq<char>) -> bool {
    forall|i: int| 0 <= i < s.len() ==> s[i] != '\0'
}

/// The body bytes for a sequence of pairs: each key and each value encoded
/// as UTF-8 and followed by one null byte.
pub open spec fn encode_pairs_bytes(pairs: Seq<(Seq<char>, Seq<char>)>) -> Seq<u8>
    decreases pairs.len(),
{
    if pairs.len() == 0 {
        seq![]
    } else {
        vstd::utf8::encode_utf8(pairs[0].0) + seq![0u8] + vstd::utf8::encode_utf8(pairs[0].1)
            + seq![0u8] + encode_pairs_bytes(pairs.drop_first())
    }
}

/// The full encoding of a sequence of pairs: magic, count byte, body.
pub open spec fn spec_encode(pairs: Seq<(Seq<char>, Seq<char>)>) -> Seq<u8> {
    magic_bytes() + seq![pairs.len() as u8] + encode_pairs_bytes(pairs)
}

/// The bytes one pair contributes to the body.
pub open spec fn pair_bytes(p: (Seq<char>, Seq<char>)) -> Seq<u8> {
    vstd::utf8::encode_utf8(p.0) + seq![0u8] + vstd::utf8::encode_utf8(p.1) + seq![0u8]
}

/// Extending the encoded prefix by one pair appends that pair's bytes.
pub proof fn lemma_encode_pairs_snoc(ps: Seq<(Seq<char>, Seq<char>)>, i: int)
    requires
        0 <= i < ps.len(),
    ensures
        encode_pairs_bytes(ps.take(i + 1)) == encode_pairs_bytes(ps.take(i)) + pair_bytes(ps[i]),
    decreases i,
{
    if i == 0 {
        let t = ps.take(1);
        assert(t[0] == ps[0]);
        assert(t.drop_first() =~= Seq::<(Seq<char>, Seq<char>)>::empty());
        assert(encode_pairs_bytes(t.drop_first()) =~= Seq::<u8>::empty());
        assert(ps.take(0) =~= Seq::<(Seq<char>, Seq<char>)>::empty());
        assert(encode_pairs_bytes(ps.take(1)) =~= pair_bytes(ps[0]));
        assert(encode_pairs_bytes(ps.take(0)) + pair_bytes(ps[0]) =~= pair_bytes(ps[0]));
    } else {
        lemma_encode_pairs_snoc(ps.drop_first(), i - 1);
        assert(ps.take(i + 1).drop_first() =~= ps.drop_first().take(i));
        assert(ps.take(i).drop_first() =~= ps.drop_first().take(i - 1));
        assert(ps.take(i + 1)[0] == ps[0]);
        assert(ps.take(i)[0] == ps[0]);
        assert(ps.drop_first()[i - 1] == ps[i]);
        assert(encode_pairs_bytes(ps.take(i + 1)) =~= encode_pairs_bytes(ps.take(i)) + pair_bytes(
            ps[i],
        ));
    }
}

} // verus!
