//! Corpora stored in the legacy single-byte Cyrillic encoding are decoded to
//! the unified character representation before scanning. The decode itself is
//! the outside library's; the generation that follows is verified for every
//! value it can return.

use vstd::prelude::*;

use crate::phonetic::valid_digits;
use crate::scan::is_output;

verus! {

/// The text that the windows-1251 decoding of a whole byte buffer yields
/// (replacement characters included): a function of the bytes alone.
pub uninterp spec fn windows_1251_of(bytes: Seq<u8>) -> Seq<char>;

/// Relies on `encoding_rs::Encoding::decode` on `WINDOWS_1251`: decoding a
/// whole buffer is deterministic in the bytes, and an empty buffer decodes to
/// the empty string. The length bound keeps the output buffer size
/// calculation, documented to panic on `usize` overflow, far from overflow.
#[verifier::external_body]
fn decode_windows_1251(bytes: &Vec<u8>) -> (r: String)
    requires
        bytes@.len() < usize::MAX / 8,
    ensures
        r@ == windows_1251_of(bytes@),
        bytes@.len() == 0 ==> r@.len() == 0,
{
    let (s, _, _) = encoding_rs::WINDOWS_1251.decode(bytes.as_slice());
    s.into_owned()
}

/// Generate the phonewords of a digit string over a corpus still in its
/// legacy single-byte encoding: decode it, then scan as `generate_words`
/// does.
pub fn generate_words_windows_1251(number: &str, corpus: &Vec<u8>) -> (r: Vec<String>)
    requires
        valid_digits(number@),
        corpus@.len() < usize::MAX / 8,
    ensures
        is_output(windows_1251_of(corpus@), number@, r.deep_view()),
{
    let text = decode_windows_1251(corpus);
    crate::generate_words(number, text.as_str())
}

} // verus!
