use vstd::prelude::*;

verus! {

/// The BLAKE3 digest of a byte sequence, rendered as lowercase hexadecimal.
/// The algorithm is not written out here: the digest is a fixed function of
/// the input bytes alone, and only its identity matters to the contracts.
pub uninterp spec fn etag_of(bytes: Seq<u8>) -> Seq<u8>;

/// Relies on blake3::hash and blake3::Hash::to_hex: the digest depends on the
/// input bytes alone, and its hex form holds exactly 64 bytes.
#[verifier::external_body]
pub(crate) fn hash_hex(bytes: &Vec<u8>) -> (r: Vec<u8>)
    ensures
        r@ == etag_of(bytes@),
        r@.len() == 64,
{
    blake3::hash(bytes.as_slice()).to_hex().as_str().as_bytes().to_vec()
}

/// The UTF-8 lossy decoding of a byte sequence, as the bytes of the decoded
/// text: invalid sequences become replacement characters.
pub uninterp spec fn lossy_of(bytes: Seq<u8>) -> Seq<u8>;

/// Relies on String::from_utf8_lossy: the decoded text is a function of the
/// input bytes alone, and an empty input decodes to empty text.
#[verifier::external_body]
pub(crate) fn decode_lossy(bytes: &Vec<u8>) -> (r: Vec<u8>)
    ensures
        r@ == lossy_of(bytes@),
        bytes@.len() == 0 ==> r@.len() == 0,
{
    String::from_utf8_lossy(bytes.as_slice()).into_owned().into_bytes()
}

/// Whether the query compiles as a case-insensitive regular expression:
/// a fixed function of the pattern bytes alone.
pub uninterp spec fn rx_compiles(pattern: Seq<u8>) -> bool;

/// Relies on regex::RegexBuilder::build, applied to the pattern decoded with
/// String::from_utf8_lossy and with case_insensitive(true): whether the
/// pattern compiles depends on the pattern alone.
#[verifier::external_body]
pub(crate) fn regex_ci_compiles(pattern: &Vec<u8>) -> (r: bool)
    ensures
        r == rx_compiles(pattern@),
{
    let p = String::from_utf8_lossy(pattern.as_slice());
    regex::RegexBuilder::new(&p).case_insensitive(true).build().is_ok()
}

/// The byte offset of the first match of the case-insensitive regular
/// expression built from `pattern` in `hay`, both taken through UTF-8 lossy
/// decoding; `None` when the expression matches nowhere in `hay`.
pub uninterp spec fn rx_find(pattern: Seq<u8>, hay: Seq<u8>) -> Option<usize>;

/// Relies on regex::Regex::find on the case-insensitively compiled pattern:
/// the first match and its byte offset depend on the pattern and the haystack
/// alone, and an offset indexes the decoded haystack, a string whose length
/// stays under isize::MAX.
#[verifier::external_body]
pub(crate) fn regex_ci_find(pattern: &Vec<u8>, hay: &Vec<u8>) -> (r: Option<usize>)
    requires
        rx_compiles(pattern@),
    ensures
        r == rx_find(pattern@, hay@),
        r matches Some(i) ==> i < usize::MAX,
{
    let p = String::from_utf8_lossy(pattern.as_slice());
    let h = String::from_utf8_lossy(hay.as_slice());
    match regex::RegexBuilder::new(&p).case_insensitive(true).build() {
        Ok(re) => re.find(&h).map(|m| m.start()),
        Err(_) => None,
    }
}

/// Relies on std::time::SystemTime::now: the seconds of the Unix time at the
/// call, or 0 when the clock stands before the epoch. Nothing can be promised
/// of a clock reading.
#[verifier::external_body]
pub fn now() -> u64 {
    match std::time::SystemTime::now().duration_since(std::time::UNIX_EPOCH) {
        Ok(d) => d.as_secs(),
        Err(_) => 0,
    }
}

} // verus!
