use vstd::prelude::*;

verus! {

/// The characters that UTF-8 decoding yields for the given bytes, when they
/// are valid UTF-8.
pub uninterp spec fn utf8_decode_of(bytes: Seq<u8>) -> Option<Seq<char>>;

/// The characters that the EUC-KR decoding yields for the given bytes.
pub uninterp spec fn euc_kr_decode_of(bytes: Seq<u8>) -> Seq<char>;

/// Relies on String::from_utf8: it returns Ok exactly on valid UTF-8 input,
/// and then the decoded characters; both depend on the bytes alone.
#[verifier::external_body]
fn try_utf8(bytes: &Vec<u8>) -> (r: Option<String>)
    ensures
        match r {
            Some(s) => utf8_decode_of(bytes@) == Some(s@),
            None => utf8_decode_of(bytes@) is None,
        },
{
    String::from_utf8(bytes.clone()).ok()
}

/// Relies on encoding_rs::EUC_KR.decode: a total decoding — with BOM
/// sniffing, and replacement characters for malformed sequences — whose
/// result depends on the bytes alone. Its output-buffer size calculation
/// panics if it overflows usize, so inputs anywhere near that size are kept
/// out.
#[verifier::external_body]
fn decode_euc_kr(bytes: &Vec<u8>) -> (r: String)
    requires
        bytes@.len() <= (usize::MAX as int) / 4,
    ensures
        r@ == euc_kr_decode_of(bytes@),
{
    encoding_rs::EUC_KR.decode(bytes).0.into_owned()
}

/// The text a byte sequence decodes to: its UTF-8 reading when the bytes are
/// valid UTF-8, and its EUC-KR reading otherwise.
pub open spec fn spec_decode_text(bytes: Seq<u8>) -> Seq<char> {
    match utf8_decode_of(bytes) {
        Some(s) => s,
        None => euc_kr_decode_of(bytes),
    }
}

/// Decode the raw bytes of a text file: UTF-8 first, with the legacy EUC-KR
/// encoding as the fallback when the bytes are not valid UTF-8. The length
/// bound is a machine limit of the fallback decoder's buffer arithmetic.
pub fn decode_text(bytes: &Vec<u8>) -> (text: String)
    requires
        bytes@.len() <= (usize::MAX as int) / 4,
    ensures
        text@ == spec_decode_text(bytes@),
{
    match try_utf8(bytes) {
        Some(s) => s,
        None => decode_euc_kr(bytes),
    }
}

} // verus!
