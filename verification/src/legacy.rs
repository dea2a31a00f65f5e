//! The superseded textual metadata format: repeated `IDENTIFIER=VALUE\0`
//! records, scanned byte by byte into a key-indexed map.
//!
//! Unlike the binary format this one carries no magic number and no count;
//! identifiers end at the first `=`, so a value may itself contain `=`,
//! and a trimmed identifier must not be blank.

use std::collections::HashMap;
use vstd::prelude::*;
use vstd::string::StrSliceExecFns;
use vstd::utf8::{decode_utf8, valid_utf8};

verus! {

/// The ways a legacy text buffer can fail to decode.
#[derive(Debug, Eq, PartialEq)]
pub enum EmbossError {
    UnexpectedValueEnd,
    MissingIdent,
}

impl EmbossError {
    /// A short human-readable description of the failure.
    pub fn describe(&self) -> (r: &'static str)
        ensures
            r@ == match self {
                EmbossError::UnexpectedValueEnd => "Prematurely reached the end of metadata value during extraction"@,
                EmbossError::MissingIdent => "Metadata identifier is either blank or comprised entirely of whitespace"@,
            },
    {
        match self {
            EmbossError::UnexpectedValueEnd => {
                "Prematurely reached the end of metadata value during extraction"
            },
            EmbossError::MissingIdent => {
                "Metadata identifier is either blank or comprised entirely of whitespace"
            },
        }
    }
}

/// What `String::from_utf8_lossy` turns a byte sequence into: a function
/// of the bytes alone, named here because spelling out the replacement of
/// ill-formed sequences would restate the whole substitution algorithm.
pub uninterp spec fn lossy_decode(b: Seq<u8>) -> Seq<char>;

/// Relies on `String::from_utf8_lossy`: the result depends on the bytes
/// alone, and bytes that already are valid UTF-8 come back unchanged.
#[verifier::external_body]
fn bytes_to_string_lossy(b: &[u8]) -> (r: String)
    ensures
        r@ == lossy_decode(b@),
        valid_utf8(b@) ==> r@ == decode_utf8(b@),
{
    String::from_utf8_lossy(b).into_owned()
}

/// The characters with the Unicode `White_Space` property: what trimming
/// an identifier removes.
pub open spec fn is_space(c: char) -> bool {
    c == '\t' || c == '\n' || c == '\u{B}' || c == '\u{C}' || c == '\r' || c == ' ' || c
        == '\u{85}' || c == '\u{A0}' || c == '\u{1680}' || ('\u{2000}' <= c && c <= '\u{200A}') || c
        == '\u{2028}' || c == '\u{2029}' || c == '\u{202F}' || c == '\u{205F}' || c == '\u{3000}'
}

/// True when the string trims to nothing: every character is whitespace.
pub open spec fn is_blank(s: Seq<char>) -> bool {
    forall|i: int| 0 <= i < s.len() ==> is_space(#[trigger] s[i])
}

/// Whether `c` has the Unicode `White_Space` property.
fn is_space_char(c: char) -> (r: bool)
    ensures
        r == is_space(c),
{
    c == '\t' || c == '\n' || c == '\u{B}' || c == '\u{C}' || c == '\r' || c == ' ' || c
        == '\u{85}' || c == '\u{A0}' || c == '\u{1680}' || ('\u{2000}' <= c && c <= '\u{200A}') || c
        == '\u{2028}' || c == '\u{2029}' || c == '\u{202F}' || c == '\u{205F}' || c == '\u{3000}'
}

/// Whether the string is blank: empty or made of whitespace alone.
fn is_blank_str(s: &String) -> (r: bool)
    ensures
        r == is_blank(s@),
{
    let n = s.as_str().unicode_len();
    let mut i: usize = 0;
    while i < n
        invariant
            n == s@.len(),
            i <= n,
            forall|j: int| 0 <= j < i ==> is_space(#[trigger] s@[j]),
        decreases n - i,
    {
        if !is_space_char(s.as_str().get_char(i)) {
            return false;
        }
        i = i + 1;
    }
    true
}

/// The view of the identifier held while scanning.
pub open spec fn opt_chars(o: Option<String>) -> Option<Seq<char>> {
    match o {
        Option::None => None,
        Option::Some(s) => Some(s@),
    }
}

/// The byte-by-byte scan of the legacy format from position `i`, where the
/// current run of bytes began at `start`, `ident` holds the identifier of
/// the record under construction (none while still reading an identifier),
/// and `acc` holds the records finished so far.
///
/// An `=` while reading an identifier finishes it, and a blank identifier
/// is an error; a null byte while reading an identifier is an error; a
/// null byte while reading a value finishes the record, a later record
/// overwriting an earlier one under the same identifier. A trailing
/// incomplete record is dropped when the buffer ends.
pub open spec fn legacy_scan(
    b: Seq<u8>,
    i: int,
    start: int,
    ident: Option<Seq<char>>,
    acc: Map<Seq<char>, Seq<char>>,
) -> Result<Map<Seq<char>, Seq<char>>, EmbossError>
    decreases b.len() - i,
    when 0 <= start <= i <= b.len()
{
    if i == b.len() {
        Ok(acc)
    } else if ident is None {
        if b[i] == 61u8 {
            let raw = lossy_decode(b.subrange(start, i));
            if is_blank(raw) {
                Err(EmbossError::MissingIdent)
            } else {
                legacy_scan(b, i + 1, i + 1, Some(raw), acc)
            }
        } else if b[i] == 0u8 {
            Err(EmbossError::UnexpectedValueEnd)
        } else {
            legacy_scan(b, i + 1, start, ident, acc)
        }
    } else {
        if b[i] == 0u8 {
            legacy_scan(
                b,
                i + 1,
                i + 1,
                None,
                acc.insert(ident.unwrap(), lossy_decode(b.subrange(start, i))),
            )
        } else {
            legacy_scan(b, i + 1, start, ident, acc)
        }
    }
}

/// What decoding a legacy buffer yields: the identifier-indexed records,
/// or the error.
pub open spec fn spec_legacy_extract(b: Seq<u8>) -> Result<
    Map<Seq<char>, Seq<char>>,
    EmbossError,
> {
    legacy_scan(b, 0, 0, None, Map::empty())
}

/// Relies on `HashMap::insert` together with `String`'s `Eq` and `Hash`
/// implementations, which compare strings by their characters: the insert
/// maps the key's characters to the value's characters and leaves every
/// other entry of the character-level view unchanged.
#[verifier::external_body]
fn map_insert_string(m: &mut HashMap<String, String>, k: String, v: String)
    ensures
        final(m).deep_view() == old(m).deep_view().insert(k@, v@),
{
    m.insert(k, v);
}

/// Decode a legacy `IDENTIFIER=VALUE\0` buffer into a key-indexed map.
///
/// Identifiers may not contain `=`; values may, since only the first `=`
/// of a record separates. See [`legacy_scan`] for the precise meaning and
/// the error taxonomy.
pub fn extract_metadata(buf: &[u8]) -> (r: Result<HashMap<String, String>, EmbossError>)
    ensures
        match spec_legacy_extract(buf@) {
            Ok(records) => r matches Ok(m) && m.deep_view() == records,
            Err(e) => r matches Err(e2) && e2 == e,
        },
{
    let mut metadata: HashMap<String, String> = HashMap::new();
    proof {
        vstd::std_specs::hash::lemma_hashmap_deepview_dom(metadata);
        assert(metadata@.dom() =~= Set::<String>::empty());
        assert(metadata@.dom().map(|k: String| k.deep_view()) =~= Set::<Seq<char>>::empty());
        assert(metadata.deep_view() =~= Map::<Seq<char>, Seq<char>>::empty());
    }
    let mut ident: Option<String> = None;
    let mut start: usize = 0;
    let mut i: usize = 0;
    while i < buf.len()
        invariant
            start <= i <= buf@.len(),
            spec_legacy_extract(buf@) == legacy_scan(
                buf@,
                i as int,
                start as int,
                opt_chars(ident),
                metadata.deep_view(),
            ),
        decreases buf@.len() - i,
    {
        let c = *vstd::slice::slice_index_get(buf, i);
        if ident.is_none() {
            if c == 61u8 {
                let raw = bytes_to_string_lossy(vstd::slice::slice_subrange(buf, start, i));
                if is_blank_str(&raw) {
                    return Err(EmbossError::MissingIdent);
                }
                ident = Some(raw);
                start = i + 1;
            } else if c == 0u8 {
                return Err(EmbossError::UnexpectedValueEnd);
            }
        } else {
            if c == 0u8 {
                let value = bytes_to_string_lossy(vstd::slice::slice_subrange(buf, start, i));
                let id = ident.unwrap();
                map_insert_string(&mut metadata, id, value);
                ident = None;
                start = i + 1;
            }
        }
        i = i + 1;
    }
    Ok(metadata)
}

} // verus!
