//! General laws of the wire format, proved over the model in
//! [`crate::format`]: the encoder and decoder invert each other, and each
//! error is raised exactly where the format says it is.

use crate::error::ErrorKind;
use crate::format::{
    encode_pairs_bytes, magic_bytes, magic_ok, no_nul, pair_up, scan_strings, spec_encode,
    spec_extract,
};
use vstd::prelude::*;
use vstd::utf8::{
    char_is_scalar, char_u32_cast, decode_utf8, encode_scalar, encode_utf8,
    encode_utf8_decode_utf8, encode_utf8_valid_utf8, has_width_1_encoding, has_width_2_encoding,
    has_width_3_encoding, valid_utf8,
};

verus! {

/// True when no byte of `b` is the null terminator.
pub open spec fn nul_free(b: Seq<u8>) -> bool {
    forall|i: int| 0 <= i < b.len() ==> b[i] != 0u8
}

/// A sequence of segments laid out back to back, each followed by one null
/// terminator.
pub open spec fn join_terminated(segs: Seq<Seq<u8>>) -> Seq<u8>
    decreases segs.len(),
{
    if segs.len() == 0 {
        seq![]
    } else {
        segs[0] + seq![0u8] + join_terminated(segs.drop_first())
    }
}

/// Each segment decoded from UTF-8, in order.
pub open spec fn decoded_segments(segs: Seq<Seq<u8>>) -> Seq<Seq<char>>
    decreases segs.len(),
{
    if segs.len() == 0 {
        seq![]
    } else {
        seq![decode_utf8(segs[0])] + decoded_segments(segs.drop_first())
    }
}

/// The UTF-8 encoding of a character other than the terminator contains no
/// null byte: a one-byte encoding is the scalar itself, which is not zero,
/// and every byte of a longer encoding has its high bit set.
proof fn lemma_encode_scalar_nul_free(c: char)
    requires
        c != '\0',
    ensures
        nul_free(encode_scalar(c as u32)),
{
    char_is_scalar(c);
    let s = c as u32;
    if s == 0 {
        char_u32_cast(c, s);
        assert(c == '\0');
    }
    if has_width_1_encoding(s) {
        assert((s & 0x7F) as u8 != 0) by (bit_vector)
            requires
                1 <= s <= 0x7F,
        ;
        assert(forall|i: int|
            0 <= i < encode_scalar(s).len() ==> encode_scalar(s)[i] != 0u8);
    } else if has_width_2_encoding(s) {
        assert((0xC0u8 | (((s >> 6) & 0x1F) as u8)) != 0) by (bit_vector);
        assert((0x80u8 | ((s & 0x3F) as u8)) != 0) by (bit_vector);
        assert(forall|i: int|
            0 <= i < encode_scalar(s).len() ==> encode_scalar(s)[i] != 0u8);
    } else if has_width_3_encoding(s) {
        assert((0xE0u8 | (((s >> 12) & 0x0F) as u8)) != 0) by (bit_vector);
        assert((0x80u8 | (((s >> 6) & 0x3F) as u8)) != 0) by (bit_vector);
        assert((0x80u8 | ((s & 0x3F) as u8)) != 0) by (bit_vector);
        assert(forall|i: int|
            0 <= i < encode_scalar(s).len() ==> encode_scalar(s)[i] != 0u8);
    } else {
        assert((0xF0u8 | (((s >> 18) & 0x7) as u8)) != 0) by (bit_vector);
        assert((0x80u8 | (((s >> 12) & 0x3F) as u8)) != 0) by (bit_vector);
        assert((0x80u8 | (((s >> 6) & 0x3F) as u8)) != 0) by (bit_vector);
        assert((0x80u8 | ((s & 0x3F) as u8)) != 0) by (bit_vector);
        assert(forall|i: int|
            0 <= i < encode_scalar(s).len() ==> encode_scalar(s)[i] != 0u8);
    }
}

/// The UTF-8 encoding of a terminator-free string is free of null bytes.
pub proof fn lemma_encode_utf8_nul_free(s: Seq<char>)
    requires
        no_nul(s),
    ensures
        nul_free(encode_utf8(s)),
    decreases s.len(),
{
    if s.len() > 0 {
        lemma_encode_scalar_nul_free(s[0]);
        assert(no_nul(s.drop_first()));
        lemma_encode_utf8_nul_free(s.drop_first());
        let head = encode_scalar(s[0] as u32);
        let tail = encode_utf8(s.drop_first());
        assert forall|i: int| 0 <= i < (head + tail).len() implies (head + tail)[i] != 0u8 by {
            if i < head.len() {
                assert((head + tail)[i] == head[i]);
            } else {
                assert((head + tail)[i] == tail[i - head.len()]);
            }
        }
    }
}

/// Scanning may step over any stretch of non-null bytes without changing
/// the outcome: the scan only acts at terminators and at the end.
proof fn lemma_scan_advance(b: Seq<u8>, start: int, i: int, j: int)
    requires
        0 <= start <= i <= j <= b.len(),
        forall|k: int| i <= k < j ==> b[k] != 0u8,
    ensures
        scan_strings(b, start, i) == scan_strings(b, start, j),
    decreases j - i,
{
    if i < j {
        lemma_scan_advance(b, start, i + 1, j);
    }
}

/// The scan never reports a magic or count failure: those are checked
/// before the scan begins.
proof fn lemma_scan_error_kinds(b: Seq<u8>, start: int, i: int)
    requires
        0 <= start <= i <= b.len(),
    ensures
        scan_strings(b, start, i) matches Err(e) ==> (e == ErrorKind::InvalidEmbossedCString || e
            == ErrorKind::InvalidUtf8),
    decreases b.len() - i,
{
    if i < b.len() {
        if b[i] == 0u8 {
            lemma_scan_error_kinds(b, i + 1, i + 1);
        } else {
            lemma_scan_error_kinds(b, start, i + 1);
        }
    }
}

/// Scanning a region that lays out null-terminated, terminator-free, valid
/// UTF-8 segments recovers exactly those segments, decoded, followed by
/// whatever the scan of the remainder yields.
proof fn lemma_scan_join(b: Seq<u8>, p: int, segs: Seq<Seq<u8>>)
    requires
        0 <= p,
        p + join_terminated(segs).len() <= b.len(),
        b.subrange(p, p + join_terminated(segs).len()) == join_terminated(segs),
        forall|k: int|
            0 <= k < segs.len() ==> nul_free(#[trigger] segs[k]) && valid_utf8(segs[k]),
    ensures
        ({
            let q = p + join_terminated(segs).len();
            match scan_strings(b, q, q) {
                Ok(rest) => scan_strings(b, p, p) == Ok::<_, ErrorKind>(
                    decoded_segments(segs) + rest,
                ),
                Err(e) => scan_strings(b, p, p) == Err::<Seq<Seq<char>>, ErrorKind>(e),
            }
        }),
    decreases segs.len(),
{
    let jt = join_terminated(segs);
    let q = p + jt.len();
    if segs.len() == 0 {
        assert(decoded_segments(segs) =~= Seq::<Seq<char>>::empty());
        match scan_strings(b, q, q) {
            Ok(rest) => {
                assert(decoded_segments(segs) + rest =~= rest);
            },
            Err(_) => {},
        }
    } else {
        let s0 = segs[0];
        let l0 = s0.len() as int;
        let rest_segs = segs.drop_first();
        let jt_rest = join_terminated(rest_segs);
        assert(jt == s0 + seq![0u8] + jt_rest);
        assert forall|t: int| 0 <= t < jt.len() implies b[p + t] == jt[t] by {
            assert(b[p + t] == b.subrange(p, p + jt.len() as int)[t]);
        }
        assert(forall|t: int| 0 <= t < l0 ==> #[trigger] jt[t] == s0[t]);
        assert(jt[l0] == 0u8);
        // Step over the first segment's bytes, which contain no terminator.
        assert forall|k: int| p <= k < p + l0 implies b[k] != 0u8 by {
            assert(b[k] == jt[k - p]);
            assert(jt[k - p] == s0[k - p]);
            assert(s0[k - p] != 0u8);
        }
        lemma_scan_advance(b, p, p, p + l0);
        // At its terminator the scan consumes exactly the first segment.
        assert(b.subrange(p, p + l0) =~= s0);
        let p1 = p + l0 + 1;
        assert(p1 + jt_rest.len() == q);
        assert(b.subrange(p1, p1 + jt_rest.len()) =~= jt_rest) by {
            assert(forall|t: int| 0 <= t < jt_rest.len() ==> jt[l0 + 1 + t] == jt_rest[t]);
        }
        assert(forall|k: int|
            0 <= k < rest_segs.len() ==> nul_free(#[trigger] rest_segs[k]) && valid_utf8(
                rest_segs[k],
            ));
        lemma_scan_join(b, p1, rest_segs);
        assert(scan_strings(b, p, p + l0) == (match scan_strings(b, p1, p1) {
            Ok(r) => Ok::<_, ErrorKind>(seq![decode_utf8(s0)] + r),
            Err(e) => Err::<Seq<Seq<char>>, ErrorKind>(e),
        }));
        match scan_strings(b, q, q) {
            Ok(rest) => {
                assert(seq![decode_utf8(s0)] + (decoded_segments(rest_segs) + rest)
                    =~= decoded_segments(segs) + rest);
            },
            Err(_) => {},
        }
    }
}

/// The segments the encoder lays out for a sequence of pairs: the UTF-8
/// bytes of each key and each value, interleaved in order.
pub open spec fn encoded_segments(pairs: Seq<(Seq<char>, Seq<char>)>) -> Seq<Seq<u8>>
    decreases pairs.len(),
{
    if pairs.len() == 0 {
        seq![]
    } else {
        seq![encode_utf8(pairs[0].0), encode_utf8(pairs[0].1)] + encoded_segments(
            pairs.drop_first(),
        )
    }
}

/// The strings of a sequence of pairs, interleaved in order: key, value,
/// key, value, and so on.
pub open spec fn strings_of(pairs: Seq<(Seq<char>, Seq<char>)>) -> Seq<Seq<char>>
    decreases pairs.len(),
{
    if pairs.len() == 0 {
        seq![]
    } else {
        seq![pairs[0].0, pairs[0].1] + strings_of(pairs.drop_first())
    }
}

/// The encoder's body bytes are exactly its segments joined with
/// terminators, the segments are terminator-free and valid UTF-8 when the
/// pairs are terminator-free, and they decode back to the pairs' strings.
proof fn lemma_encoded_segments(pairs: Seq<(Seq<char>, Seq<char>)>)
    requires
        forall|k: int|
            0 <= k < pairs.len() ==> no_nul(#[trigger] pairs[k].0) && no_nul(pairs[k].1),
    ensures
        join_terminated(encoded_segments(pairs)) == encode_pairs_bytes(pairs),
        forall|k: int|
            0 <= k < encoded_segments(pairs).len() ==> nul_free(
                #[trigger] encoded_segments(pairs)[k],
            ) && valid_utf8(encoded_segments(pairs)[k]),
        decoded_segments(encoded_segments(pairs)) == strings_of(pairs),
    decreases pairs.len(),
{
    if pairs.len() == 0 {
        assert(join_terminated(encoded_segments(pairs)) =~= encode_pairs_bytes(pairs));
        assert(decoded_segments(encoded_segments(pairs)) =~= strings_of(pairs));
    } else {
        let k0 = pairs[0].0;
        let v0 = pairs[0].1;
        let rest = pairs.drop_first();
        lemma_encoded_segments(rest);
        let segs = encoded_segments(pairs);
        assert(segs[0] == encode_utf8(k0));
        assert(segs.drop_first()[0] == encode_utf8(v0));
        assert(segs.drop_first().drop_first() =~= encoded_segments(rest));
        assert(join_terminated(segs) == segs[0] + seq![0u8] + join_terminated(segs.drop_first()));
        assert(join_terminated(segs.drop_first()) == segs.drop_first()[0] + seq![0u8]
            + join_terminated(segs.drop_first().drop_first()));
        assert(join_terminated(segs) =~= encode_pairs_bytes(pairs));
        lemma_encode_utf8_nul_free(k0);
        lemma_encode_utf8_nul_free(v0);
        encode_utf8_valid_utf8(k0);
        encode_utf8_valid_utf8(v0);
        assert forall|k: int| 0 <= k < segs.len() implies nul_free(#[trigger] segs[k])
            && valid_utf8(segs[k]) by {
            if k >= 2 {
                assert(segs[k] == encoded_segments(rest)[k - 2]);
            }
        }
        encode_utf8_decode_utf8(k0);
        encode_utf8_decode_utf8(v0);
        assert(decoded_segments(segs) == seq![decode_utf8(segs[0])] + decoded_segments(
            segs.drop_first(),
        ));
        assert(decoded_segments(segs.drop_first()) == seq![decode_utf8(segs.drop_first()[0])]
            + decoded_segments(segs.drop_first().drop_first()));
        assert(decoded_segments(segs) =~= strings_of(pairs));
    }
}

/// Pairing the interleaved strings back up recovers the pairs.
proof fn lemma_pair_up_strings_of(pairs: Seq<(Seq<char>, Seq<char>)>)
    ensures
        pair_up(strings_of(pairs)) == pairs,
    decreases pairs.len(),
{
    if pairs.len() == 0 {
        assert(pair_up(strings_of(pairs)) =~= pairs);
    } else {
        let rest = pairs.drop_first();
        lemma_pair_up_strings_of(rest);
        let ss = strings_of(pairs);
        assert(ss.len() >= 2);
        assert(ss.skip(2) =~= strings_of(rest));
        assert(ss[0] == pairs[0].0 && ss[1] == pairs[0].1);
        assert(pair_up(ss) =~= pairs);
    }
}

/// Round trip: decoding an encoded buffer recovers exactly the pairs that
/// were encoded, in their original order. This holds for any 1 to 255
/// pairs of strings free of the terminator character, and in particular
/// for ASCII strings without embedded nulls.
pub proof fn lemma_encode_then_extract(pairs: Seq<(Seq<char>, Seq<char>)>)
    requires
        1 <= pairs.len() <= 255,
        forall|k: int|
            0 <= k < pairs.len() ==> no_nul(#[trigger] pairs[k].0) && no_nul(pairs[k].1),
    ensures
        spec_extract(spec_encode(pairs)) == Ok::<_, ErrorKind>(pairs),
{
    let b = spec_encode(pairs);
    let body = encode_pairs_bytes(pairs);
    assert(b == magic_bytes() + seq![pairs.len() as u8] + body);
    assert(b.len() == 5 + body.len());
    assert(b[0] == 0x55u8 && b[1] == 0xB0u8 && b[2] == 0x77u8 && b[3] == 0x1Au8);
    assert(magic_ok(b));
    assert(b[4] == pairs.len() as u8);
    assert(b[4] != 0u8);
    lemma_encoded_segments(pairs);
    let segs = encoded_segments(pairs);
    assert(b.subrange(5, 5 + join_terminated(segs).len() as int) =~= join_terminated(segs));
    lemma_scan_join(b, 5, segs);
    let q: int = 5 + join_terminated(segs).len() as int;
    assert(q == b.len());
    assert(scan_strings(b, q, q) == Ok::<_, ErrorKind>(Seq::<Seq<char>>::empty()));
    assert(decoded_segments(segs) + Seq::<Seq<char>>::empty() =~= strings_of(pairs));
    assert(scan_strings(b, 5, 5) == Ok::<_, ErrorKind>(strings_of(pairs)));
    lemma_pair_up_strings_of(pairs);
}

/// A buffer fails with `IncorrectLeadingMagic` exactly when it does not
/// begin with the magic bytes, whatever its remaining bytes hold; in
/// particular every buffer shorter than 4 bytes fails so.
pub proof fn lemma_incorrect_magic(b: Seq<u8>)
    ensures
        b.len() < 4 ==> !magic_ok(b),
        spec_extract(b) == Err::<Seq<(Seq<char>, Seq<char>)>, ErrorKind>(
            ErrorKind::IncorrectLeadingMagic,
        ) <==> !magic_ok(b),
{
    if magic_ok(b) && b.len() >= 5 && b[4] != 0u8 {
        lemma_scan_error_kinds(b, 5, 5);
    }
}

/// A buffer fails with `EmptyEmbossing` exactly when it carries the magic
/// bytes but declares no entries: its count byte is zero or missing,
/// whatever bytes follow.
pub proof fn lemma_empty_embossing(b: Seq<u8>)
    ensures
        spec_extract(b) == Err::<Seq<(Seq<char>, Seq<char>)>, ErrorKind>(
            ErrorKind::EmptyEmbossing,
        ) <==> (magic_ok(b) && (b.len() < 5 || b[4] == 0u8)),
{
    if magic_ok(b) && b.len() >= 5 && b[4] != 0u8 {
        lemma_scan_error_kinds(b, 5, 5);
    }
}

/// A buffer whose segments reach a string that is not valid UTF-8 fails
/// with `InvalidUtf8`, and decoding does not proceed past that string:
/// the bytes after its terminator play no part in the outcome.
pub proof fn lemma_invalid_utf8_stops(count: u8, segs: Seq<Seq<u8>>, bad: Seq<u8>, rest: Seq<u8>)
    requires
        count != 0,
        forall|k: int|
            0 <= k < segs.len() ==> nul_free(#[trigger] segs[k]) && valid_utf8(segs[k]),
        nul_free(bad),
        !valid_utf8(bad),
    ensures
        spec_extract(
            magic_bytes() + seq![count] + join_terminated(segs) + bad + seq![0u8] + rest,
        ) == Err::<Seq<(Seq<char>, Seq<char>)>, ErrorKind>(ErrorKind::InvalidUtf8),
{
    let jt = join_terminated(segs);
    let b = magic_bytes() + seq![count] + jt + bad + seq![0u8] + rest;
    let q: int = 5 + jt.len() as int;
    assert(magic_ok(b));
    assert(b[4] == count);
    assert(b.subrange(5, q) =~= jt);
    assert forall|t: int| 0 <= t < bad.len() implies b[q + t] == bad[t] by {}
    assert(b[q + bad.len()] == 0u8);
    assert forall|k: int| q <= k < q + bad.len() implies b[k] != 0u8 by {
        assert(b[k] == bad[k - q]);
    }
    lemma_scan_advance(b, q, q, q + bad.len());
    assert(b.subrange(q, q + bad.len()) =~= bad);
    assert(scan_strings(b, q, q + bad.len()) == Err::<Seq<Seq<char>>, ErrorKind>(
        ErrorKind::InvalidUtf8,
    ));
    lemma_scan_join(b, 5, segs);
}

/// A buffer whose last string segment lacks a trailing null byte fails
/// with `InvalidEmbossedCString`, whatever those unterminated bytes hold.
pub proof fn lemma_missing_terminator(count: u8, segs: Seq<Seq<u8>>, tail: Seq<u8>)
    requires
        count != 0,
        forall|k: int|
            0 <= k < segs.len() ==> nul_free(#[trigger] segs[k]) && valid_utf8(segs[k]),
        nul_free(tail),
        tail.len() > 0,
    ensures
        spec_extract(magic_bytes() + seq![count] + join_terminated(segs) + tail) == Err::<
            Seq<(Seq<char>, Seq<char>)>,
            ErrorKind,
        >(ErrorKind::InvalidEmbossedCString),
{
    let jt = join_terminated(segs);
    let b = magic_bytes() + seq![count] + jt + tail;
    let q: int = 5 + jt.len() as int;
    assert(magic_ok(b));
    assert(b[4] == count);
    assert(b.subrange(5, q) =~= jt);
    assert forall|k: int| q <= k < b.len() implies b[k] != 0u8 by {
        assert(b[k] == tail[k - q]);
    }
    lemma_scan_advance(b, q, q, b.len() as int);
    assert(scan_strings(b, q, b.len() as int) == Err::<Seq<Seq<char>>, ErrorKind>(
        ErrorKind::InvalidEmbossedCString,
    ));
    lemma_scan_join(b, 5, segs);
}

} // verus!
