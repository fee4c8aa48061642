//! Classification of resource bytes by their leading signature.

use crate::address::{url_path, Url};
use vstd::prelude::*;

verus! {

/// A byte signature: `Some(b)` must match the byte `b`, `None` matches any
/// byte.
pub type Signature = Seq<Option<u8>>;

/// The ordered table of signatures and the mimetype each one stands for.
/// Where several match, the first one wins.
pub open spec fn magic_table() -> Seq<(Signature, Seq<char>)> {
    seq![
        (seq![Some(0x47u8), Some(0x49u8), Some(0x46u8), Some(0x38u8), Some(0x37u8), Some(0x61u8)], "image/gif"@),
        (seq![Some(0x47u8), Some(0x49u8), Some(0x46u8), Some(0x38u8), Some(0x39u8), Some(0x61u8)], "image/gif"@),
        (seq![Some(0xFFu8), Some(0xD8u8), Some(0xFFu8)], "image/jpeg"@),
        (seq![Some(0x89u8), Some(0x50u8), Some(0x4Eu8), Some(0x47u8), Some(0x0Du8), Some(0x0Au8), Some(0x1Au8), Some(0x0Au8)], "image/png"@),
        (seq![Some(0x3Cu8), Some(0x73u8), Some(0x76u8), Some(0x67u8), Some(0x20u8)], "image/svg+xml"@),
        (seq![Some(0x52u8), Some(0x49u8), Some(0x46u8), Some(0x46u8), None, None, None, None, Some(0x57u8), Some(0x45u8), Some(0x42u8), Some(0x50u8), Some(0x56u8), Some(0x50u8), Some(0x38u8), Some(0x20u8)], "image/webp"@),
        (seq![Some(0x00u8), Some(0x00u8), Some(0x01u8), Some(0x00u8)], "image/x-icon"@),
        (seq![Some(0x49u8), Some(0x44u8), Some(0x33u8)], "audio/mpeg"@),
        (seq![Some(0xFFu8), Some(0x0Eu8)], "audio/mpeg"@),
        (seq![Some(0xFFu8), Some(0x0Fu8)], "audio/mpeg"@),
        (seq![Some(0x4Fu8), Some(0x67u8), Some(0x67u8), Some(0x53u8)], "audio/ogg"@),
        (seq![Some(0x52u8), Some(0x49u8), Some(0x46u8), Some(0x46u8), None, None, None, None, Some(0x57u8), Some(0x41u8), Some(0x56u8), Some(0x45u8), Some(0x66u8), Some(0x6Du8), Some(0x74u8), Some(0x20u8)], "audio/wav"@),
        (seq![Some(0x66u8), Some(0x4Cu8), Some(0x61u8), Some(0x43u8)], "audio/x-flac"@),
        (seq![Some(0x52u8), Some(0x49u8), Some(0x46u8), Some(0x46u8), None, None, None, None, Some(0x41u8), Some(0x56u8), Some(0x49u8), Some(0x20u8), Some(0x4Cu8), Some(0x49u8), Some(0x53u8), Some(0x54u8)], "video/avi"@),
        (seq![None, None, None, None, Some(0x66u8), Some(0x74u8), Some(0x79u8), Some(0x70u8)], "video/mp4"@),
        (seq![Some(0x00u8), Some(0x00u8), Some(0x01u8), Some(0x0Bu8)], "video/mpeg"@),
        (seq![None, None, None, None, Some(0x6Du8), Some(0x6Fu8), Some(0x6Fu8), Some(0x76u8)], "video/quicktime"@),
        (seq![Some(0x1Au8), Some(0x45u8), Some(0xDFu8), Some(0xA3u8)], "video/webm"@),
    ]
}

/// `data` begins with bytes that `signature` accepts.
pub open spec fn signature_matches(data: Seq<u8>, signature: Signature) -> bool {
    &&& signature.len() <= data.len()
    &&& forall|j: int|
        0 <= j < signature.len() ==> (#[trigger] signature[j] matches Some(b) ==> data[j] == b)
}

/// The mimetype of the first entry of the table, from index `i` on, whose
/// signature matches `data`.
pub open spec fn first_signature_from(data: Seq<u8>, i: int) -> Option<Seq<char>>
    decreases magic_table().len() - i,
{
    if i < 0 || i >= magic_table().len() {
        None
    } else if signature_matches(data, magic_table()[i].0) {
        Some(magic_table()[i].1)
    } else {
        first_signature_from(data, i + 1)
    }
}

/// `c` is the lowercase ASCII letter `lower` or its uppercase form.
pub open spec fn ascii_letter_ci(c: char, lower: char) -> bool {
    c == lower || (c as u32) + 32 == (lower as u32)
}

/// `path` ends with `.svg`, ignoring ASCII case.
pub open spec fn has_svg_extension(path: Seq<char>) -> bool {
    let n = path.len();
    &&& n >= 4
    &&& path[n - 4] == '.'
    &&& ascii_letter_ci(path[n - 3], 's')
    &&& ascii_letter_ci(path[n - 2], 'v')
    &&& ascii_letter_ci(path[n - 1], 'g')
}

/// The mimetype that sniffing gives for `data` fetched from a URL with path
/// `path`: the first matching signature, else `image/svg+xml` for a `.svg`
/// path, else the empty string.
pub open spec fn sniffed_mimetype(data: Seq<u8>, path: Seq<char>) -> Seq<char> {
    match first_signature_from(data, 0) {
        Some(m) => m,
        None => if has_svg_extension(path) {
            "image/svg+xml"@
        } else {
            Seq::empty()
        },
    }
}

fn magic_entries() -> (r: Vec<(Vec<Option<u8>>, &'static str)>)
    ensures
        r@.len() == magic_table().len(),
        forall|i: int|
            0 <= i < r@.len() ==> (#[trigger] r@[i]).0@ == magic_table()[i].0 && r@[i].1@
                == magic_table()[i].1,
{
    let r = vec![
        (vec![Some(0x47u8), Some(0x49u8), Some(0x46u8), Some(0x38u8), Some(0x37u8), Some(0x61u8)], "image/gif"),
        (vec![Some(0x47u8), Some(0x49u8), Some(0x46u8), Some(0x38u8), Some(0x39u8), Some(0x61u8)], "image/gif"),
        (vec![Some(0xFFu8), Some(0xD8u8), Some(0xFFu8)], "image/jpeg"),
        (vec![Some(0x89u8), Some(0x50u8), Some(0x4Eu8), Some(0x47u8), Some(0x0Du8), Some(0x0Au8), Some(0x1Au8), Some(0x0Au8)], "image/png"),
        (vec![Some(0x3Cu8), Some(0x73u8), Some(0x76u8), Some(0x67u8), Some(0x20u8)], "image/svg+xml"),
        (vec![Some(0x52u8), Some(0x49u8), Some(0x46u8), Some(0x46u8), None, None, None, None, Some(0x57u8), Some(0x45u8), Some(0x42u8), Some(0x50u8), Some(0x56u8), Some(0x50u8), Some(0x38u8), Some(0x20u8)], "image/webp"),
        (vec![Some(0x00u8), Some(0x00u8), Some(0x01u8), Some(0x00u8)], "image/x-icon"),
        (vec![Some(0x49u8), Some(0x44u8), Some(0x33u8)], "audio/mpeg"),
        (vec![Some(0xFFu8), Some(0x0Eu8)], "audio/mpeg"),
        (vec![Some(0xFFu8), Some(0x0Fu8)], "audio/mpeg"),
        (vec![Some(0x4Fu8), Some(0x67u8), Some(0x67u8), Some(0x53u8)], "audio/ogg"),
        (vec![Some(0x52u8), Some(0x49u8), Some(0x46u8), Some(0x46u8), None, None, None, None, Some(0x57u8), Some(0x41u8), Some(0x56u8), Some(0x45u8), Some(0x66u8), Some(0x6Du8), Some(0x74u8), Some(0x20u8)], "audio/wav"),
        (vec![Some(0x66u8), Some(0x4Cu8), Some(0x61u8), Some(0x43u8)], "audio/x-flac"),
        (vec![Some(0x52u8), Some(0x49u8), Some(0x46u8), Some(0x46u8), None, None, None, None, Some(0x41u8), Some(0x56u8), Some(0x49u8), Some(0x20u8), Some(0x4Cu8), Some(0x49u8), Some(0x53u8), Some(0x54u8)], "video/avi"),
        (vec![None, None, None, None, Some(0x66u8), Some(0x74u8), Some(0x79u8), Some(0x70u8)], "video/mp4"),
        (vec![Some(0x00u8), Some(0x00u8), Some(0x01u8), Some(0x0Bu8)], "video/mpeg"),
        (vec![None, None, None, None, Some(0x6Du8), Some(0x6Fu8), Some(0x6Fu8), Some(0x76u8)], "video/quicktime"),
        (vec![Some(0x1Au8), Some(0x45u8), Some(0xDFu8), Some(0xA3u8)], "video/webm"),
    ];
    assert forall|i: int| 0 <= i < r@.len() implies (#[trigger] r@[i]).0@ == magic_table()[i].0
        && r@[i].1@ == magic_table()[i].1 by {
        assert(r@[i].0@ =~= magic_table()[i].0);
    }
    r
}

/// Whether `data` begins with bytes that `signature` accepts.
fn starts_with_signature(data: &[u8], signature: &Vec<Option<u8>>) -> (r: bool)
    ensures
        r == signature_matches(data@, signature@),
{
    if signature.len() > data.len() {
        return false;
    }
    let mut j: usize = 0;
    while j < signature.len()
        invariant
            signature.len() <= data.len(),
            j <= signature.len(),
            forall|k: int| 0 <= k < j ==> (#[trigger] signature@[k] matches Some(b) ==> data@[k] == b),
        decreases signature.len() - j,
    {
        if let Some(b) = signature[j] {
            if data[j] != b {
                return false;
            }
        }
        j = j + 1;
    }
    true
}

fn ends_with_svg(path: &str) -> (r: bool)
    ensures
        r == has_svg_extension(path@),
{
    let n = path.unicode_len();
    if n < 4 {
        return false;
    }
    let dot = path.get_char(n - 4);
    let s = path.get_char(n - 3);
    let v = path.get_char(n - 2);
    let g = path.get_char(n - 1);
    dot == '.' && (s == 's' || s == 'S') && (v == 'v' || v == 'V') && (g == 'g' || g == 'G')
}

/// Classify the bytes of a fetched resource: the mimetype of the first
/// signature of the table that `data` begins with; failing that
/// `image/svg+xml` where the path of `url` ends in `.svg` (any case); else
/// the empty string.
pub fn mimetype_from_response(data: &[u8], url: &Url) -> (r: String)
    ensures
        r@ == sniffed_mimetype(data@, url_path(url@)),
{
    let table = magic_entries();
    let mut i: usize = 0;
    while i < table.len()
        invariant
            i <= table.len(),
            table@.len() == magic_table().len(),
            forall|k: int|
                0 <= k < table@.len() ==> (#[trigger] table@[k]).0@ == magic_table()[k].0 && table@[k].1@
                    == magic_table()[k].1,
            first_signature_from(data@, 0) == first_signature_from(data@, i as int),
        decreases table.len() - i,
    {
        if starts_with_signature(data, &table[i].0) {
            return String::from_str(table[i].1);
        }
        i = i + 1;
    }
    if ends_with_svg(url.path()) {
        String::from_str("image/svg+xml")
    } else {
        String::new()
    }
}

} // verus!
