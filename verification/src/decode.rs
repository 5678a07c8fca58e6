//! Turning the bytes of a roster file into text: UTF-8 where the bytes are
//! valid UTF-8, otherwise GB18030, which Chinese spreadsheet programs often
//! write.

use vstd::prelude::*;
use vstd::utf8::{valid_utf8, decode_utf8};

verus! {

/// The text that encoding_rs reads from `bytes` taken as GB18030: a leading
/// byte-order mark selects UTF-8 or UTF-16 instead and is dropped, and
/// malformed sequences become U+FFFD.
pub uninterp spec fn gb18030_decode(bytes: Seq<u8>) -> Seq<char>;

/// `std::str::from_utf8`: the text that `bytes` encode where they are
/// valid UTF-8 (as vstd's `valid_utf8` and `decode_utf8` define it), and
/// `None` otherwise.
#[verifier::external_body]
fn utf8_text(bytes: &[u8]) -> (r: Option<String>)
    ensures
        r is Some <==> valid_utf8(bytes@),
        r matches Some(s) ==> s@ == decode_utf8(bytes@),
{
    std::str::from_utf8(bytes).ok().map(|s| s.to_owned())
}

/// `encoding_rs::GB18030.decode`: the text of `bytes` read as GB18030 (with
/// byte-order-mark sniffing and replacement of malformed sequences, which
/// the contract names and does not spell out). The input bound keeps the
/// size calculation of encoding_rs's output buffer, which panics on
/// overflow, within `usize`.
#[verifier::external_body]
fn gb18030_text(bytes: &[u8]) -> (r: String)
    requires
        bytes@.len() <= usize::MAX / 8,
    ensures
        r@ == gb18030_decode(bytes@),
{
    encoding_rs::GB18030.decode(bytes).0.into_owned()
}

/// The text of a roster file: its UTF-8 reading where the bytes are valid
/// UTF-8, else its GB18030 reading, which never fails.
pub open spec fn roster_text(bytes: Seq<u8>) -> Seq<char> {
    if valid_utf8(bytes) {
        decode_utf8(bytes)
    } else {
        gb18030_decode(bytes)
    }
}

/// Decodes the bytes of a roster file.
pub fn decode_roster_text(bytes: &[u8]) -> (text: String)
    requires
        bytes@.len() <= usize::MAX / 8,
    ensures
        text@ == roster_text(bytes@),
{
    match utf8_text(bytes) {
        Some(s) => s,
        None => gb18030_text(bytes),
    }
}

} // verus!
