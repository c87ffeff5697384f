//! Text encodings that other crates compute: a row of cells as JSON, and a
//! text as Base64.

use vstd::prelude::*;
use crate::strings::byte_len;

verus! {

/// The JSON text that `serde_json` writes for a row of cell texts.
pub uninterp spec fn json_of_row(row: Seq<Seq<char>>) -> Seq<char>;

/// The row of cell texts that `serde_json` reads from a JSON text, if it
/// reads one.
pub uninterp spec fn row_of_json(json: Seq<char>) -> Option<Seq<Seq<char>>>;

/// The Base64 form of the UTF-8 bytes of a text, in the standard alphabet
/// with padding.
pub uninterp spec fn base64_of(text: Seq<char>) -> Seq<char>;

/// The length of the Base64 form, with padding, of `n` bytes.
pub open spec fn base64_len(n: nat) -> nat {
    (n / 3) * 4 + if n % 3 > 0 {
        4nat
    } else {
        0nat
    }
}

/// `serde_json::to_string` on a vector of strings: the JSON text of the
/// row, the same text for the same row. The serializer writes into memory
/// and can write every string, so it has no error to give here; the empty
/// text stands in for the error that its type allows.
#[verifier::external_body]
pub(crate) fn row_to_json(row: &Vec<String>) -> (json: String)
    ensures
        json@ == json_of_row(row.deep_view()),
{
    serde_json::to_string(row).unwrap_or_default()
}

/// `serde_json::from_str` for a vector of strings: the row that the JSON
/// text holds, the same row for the same text; `None` stands for a text that
/// is not the JSON of an array of strings.
#[verifier::external_body]
pub(crate) fn json_to_row(json: &str) -> (row: Option<Vec<String>>)
    ensures
        match row {
            Some(cells) => row_of_json(json@) == Some(cells.deep_view()),
            None => row_of_json(json@) is None,
        },
{
    serde_json::from_str::<Vec<String>>(json).ok()
}

/// `Engine::encode` of `base64`'s `STANDARD` engine on the bytes of a
/// string: the Base64 form of the text, the same for the same text. The
/// engine panics where the length of the result cannot be computed or
/// allocated, so the text must be short enough for its Base64 form to have a
/// length that an `isize` holds.
#[verifier::external_body]
pub(crate) fn text_to_base64(text: &str) -> (encoded: String)
    requires
        base64_len(byte_len(text@)) <= isize::MAX,
    ensures
        encoded@ == base64_of(text@),
{
    base64::Engine::encode(&base64::engine::general_purpose::STANDARD, text)
}

} // verus!
