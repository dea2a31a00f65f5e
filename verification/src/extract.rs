//! The binary-format decoder: validates a raw byte buffer and recovers the
//! embedded key-value string pairs, as slices borrowing from the buffer.

use crate::error::{EmbossError, ErrorKind};
use crate::format::{magic_ok, pair_up, pairs_to_map, scan_strings, spec_extract};
use std::collections::HashMap;
use vstd::prelude::*;
use vstd::slice::{slice_index_get, slice_subrange};
use vstd::utf8::{decode_utf8, valid_utf8};

verus! {

/// Relies on `std::str::from_utf8`: it returns `Ok` exactly on the byte
/// sequences that are valid UTF-8 per `vstd::utf8::valid_utf8`, and the
/// string it returns decodes those bytes per `vstd::utf8::decode_utf8`.
#[verifier::external_body]
fn bytes_to_str(b: &[u8]) -> (r: Result<&str, std::str::Utf8Error>)
    ensures
        r is Ok <==> valid_utf8(b@),
        r matches Ok(s) ==> s@ == decode_utf8(b@),
{
    std::str::from_utf8(b)
}

/// Decode the binary layout: magic, count byte, then null-terminated UTF-8
/// strings consumed alternately as keys and values until the buffer ends.
fn extract_metadata<'a>(buf: &'a [u8]) -> (r: Result<Vec<(&'a str, &'a str)>, EmbossError>)
    ensures
        match spec_extract(buf@) {
            Ok(pairs) => r matches Ok(v) && v.deep_view() == pairs,
            Err(k) => r matches Err(e) && e.kind() == k,
        },
{
    let n = buf.len();
    if n < 4 || *slice_index_get(buf, 0) != 0x55u8 || *slice_index_get(buf, 1) != 0xB0u8
        || *slice_index_get(buf, 2) != 0x77u8 || *slice_index_get(buf, 3) != 0x1Au8 {
        assert(!magic_ok(buf@));
        return Err(EmbossError::IncorrectLeadingMagic);
    }
    if n < 5 || *slice_index_get(buf, 4) == 0u8 {
        return Err(EmbossError::EmptyEmbossing);
    }
    let item_count = *slice_index_get(buf, 4) as usize;
    let mut items: Vec<(&'a str, &'a str)> = Vec::with_capacity(item_count);
    let mut current_key: Option<&'a str> = None;
    let mut start: usize = 5;
    let mut i: usize = 5;
    let ghost mut done: Seq<Seq<char>> = seq![];
    assert(items.deep_view() =~= pair_up(done));
    while i < n
        invariant
            n == buf@.len(),
            magic_ok(buf@),
            n >= 5,
            buf@[4] != 0u8,
            5 <= start <= i <= n,
            forall|j: int| start <= j < i ==> buf@[j] != 0u8,
            match scan_strings(buf@, start as int, i as int) {
                Ok(rest) => scan_strings(buf@, 5, 5) == Ok::<_, ErrorKind>(done + rest),
                Err(e) => scan_strings(buf@, 5, 5) == Err::<Seq<Seq<char>>, _>(e),
            },
            items.deep_view() == pair_up(done),
            if done.len() % 2 == 1 {
                current_key matches Some(k) && k@ == done.last()
            } else {
                current_key is None
            },
        decreases n - i,
    {
        if *slice_index_get(buf, i) == 0u8 {
            let seg = slice_subrange(buf, start, i);
            let ghost seg_bytes = buf@.subrange(start as int, i as int);
            match bytes_to_str(seg) {
                Err(e) => {
                    assert(scan_strings(buf@, start as int, i as int) == Err::<Seq<Seq<char>>,
                        _>(ErrorKind::InvalidUtf8));
                    return Err(EmbossError::InvalidUtf8(e));
                },
                Ok(s) => {
                    proof {
                        crate::format::lemma_pair_up_push(done, decode_utf8(seg_bytes));
                    }
                    let ghost prev_done = done;
                    proof {
                        done = done.push(decode_utf8(seg_bytes));
                    }
                    match current_key {
                        Some(key) => {
                            items.push((key, s));
                            current_key = None;
                            assert(items.deep_view() =~= pair_up(done));
                        },
                        None => {
                            current_key = Some(s);
                            assert(items.deep_view() =~= pair_up(done));
                        },
                    }
                    proof {
                        match scan_strings(buf@, i + 1, i + 1) {
                            Ok(rest) => {
                                assert(prev_done + (seq![decode_utf8(seg_bytes)] + rest) =~= done
                                    + rest);
                            },
                            Err(_) => {},
                        }
                    }
                    start = i + 1;
                    i = i + 1;
                },
            }
        } else {
            i = i + 1;
        }
    }
    if start != i {
        assert(scan_strings(buf@, start as int, i as int) == Err::<Seq<Seq<char>>,
            _>(ErrorKind::InvalidEmbossedCString));
        return Err(EmbossError::InvalidEmbossedCString);
    }
    proof {
        assert(scan_strings(buf@, start as int, i as int) == Ok::<_, ErrorKind>(
            Seq::<Seq<char>>::empty(),
        ));
        assert(done + Seq::<Seq<char>>::empty() =~= done);
    }
    Ok(items)
}

/// Decode a buffer into the ordered sequence of key-value pairs.
///
/// Pairs come back exactly in the order they were encoded; keys repeat
/// freely. See [`spec_extract`] for the precise meaning and the error
/// taxonomy.
pub fn extract_metadata_into_vec<'a>(buf: &'a [u8]) -> (r: Result<
    Vec<(&'a str, &'a str)>,
    EmbossError,
>)
    ensures
        match spec_extract(buf@) {
            Ok(pairs) => r matches Ok(v) && v.deep_view() == pairs,
            Err(k) => r matches Err(e) && e.kind() == k,
        },
{
    extract_metadata(buf)
}

/// Relies on `HashMap::insert` together with `str`'s `Eq` and `Hash`
/// implementations, which compare strings by their characters: the insert
/// maps the key's characters to the value's characters and leaves every
/// other entry of the character-level view unchanged.
#[verifier::external_body]
fn map_insert_str<'a>(m: &mut HashMap<&'a str, &'a str>, k: &'a str, v: &'a str)
    ensures
        final(m).deep_view() == old(m).deep_view().insert(k@, v@),
{
    m.insert(k, v);
}

/// Decode a buffer into a key-indexed map for key-based lookups.
///
/// The pairs are entered in encoded order, so for a repeated key the last
/// value wins; callers needing every value of a repeated key should use
/// [`extract_metadata_into_vec`] instead.
pub fn extract_metadata_into_hashmap<'a>(buf: &'a [u8]) -> (r: Result<
    HashMap<&'a str, &'a str>,
    EmbossError,
>)
    ensures
        match spec_extract(buf@) {
            Ok(pairs) => r matches Ok(m) && m.deep_view() == pairs_to_map(pairs),
            Err(k) => r matches Err(e) && e.kind() == k,
        },
{
    match extract_metadata(buf) {
        Err(e) => Err(e),
        Ok(items) => {
            let ghost pairs = items.deep_view();
            let mut map: HashMap<&'a str, &'a str> = HashMap::new();
            proof {
                vstd::std_specs::hash::lemma_hashmap_deepview_dom(map);
                assert(map@.dom() =~= Set::<&'a str>::empty());
                assert(map@.dom().map(|k: &'a str| k.deep_view()) =~= Set::<Seq<char>>::empty());
                assert(map.deep_view() =~= Map::<Seq<char>, Seq<char>>::empty());
                assert(pairs.take(0) =~= Seq::<(Seq<char>, Seq<char>)>::empty());
            }
            let mut i: usize = 0;
            while i < items.len()
                invariant
                    pairs == items.deep_view(),
                    pairs.len() == items@.len(),
                    i <= items@.len(),
                    map.deep_view() == pairs_to_map(pairs.take(i as int)),
                decreases items@.len() - i,
            {
                let k = items[i].0;
                let v = items[i].1;
                map_insert_str(&mut map, k, v);
                proof {
                    assert(pairs[i as int] == items@[i as int].deep_view());
                    assert(pairs.take(i as int + 1).drop_last() =~= pairs.take(i as int));
                    assert(pairs.take(i as int + 1).last() == pairs[i as int]);
                }
                i = i + 1;
            }
            proof {
                assert(pairs.take(pairs.len() as int) =~= pairs);
            }
            Ok(map)
        },
    }
}

} // verus!
