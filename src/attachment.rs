use vstd::prelude::*;
use vstd::slice::slice_subrange;
use vstd::string::StringSliceAdditionalSpecFns;

verus! {

/// What the standard base64 alphabet, with padding, decodes `input` to;
/// `None` where `input` is not valid base64.
pub uninterp spec fn base64_standard_decoded(input: Seq<u8>) -> Option<Seq<u8>>;

/// Relies on `base64::Engine::decode` of `base64::prelude::BASE64_STANDARD`: the
/// result depends on the input bytes alone, and an error means the input was
/// not canonical padded standard base64.
#[verifier::external_body]
fn base64_decode(input: &[u8]) -> (r: Result<Vec<u8>, base64::DecodeError>)
    ensures
        match r {
            Ok(b) => base64_standard_decoded(input@) == Some(b@),
            Err(_) => base64_standard_decoded(input@) is None,
        },
{
    base64::Engine::decode(&base64::prelude::BASE64_STANDARD, input)
}

#[verifier::external_type_specification]
#[verifier::external_body]
pub struct ExDecodeError(base64::DecodeError);

/// Why an attachment could not be decoded.
#[derive(Debug, PartialEq, Eq, Structural, Clone, Copy)]
pub enum AttachmentError {
    /// The data holds no comma separating metadata from the payload.
    MissingSeparator,
    /// The payload is not valid base64.
    InvalidBase64,
}

/// The position of the first comma at or after `i`.
pub open spec fn first_comma_from(s: Seq<u8>, i: int) -> Option<int>
    decreases s.len() - i,
{
    if i < 0 || i >= s.len() {
        None
    } else if s[i] == 0x2c {
        Some(i)
    } else {
        first_comma_from(s, i + 1)
    }
}

/// The bytes after the first comma of a data-URL style string, if it has one.
pub open spec fn data_url_payload(s: Seq<u8>) -> Option<Seq<u8>> {
    match first_comma_from(s, 0) {
        Some(i) => Some(s.subrange(i + 1, s.len() as int)),
        None => None,
    }
}

/// What the attachment in `file_data` (its UTF-8 bytes) decodes to.
pub open spec fn decoded_attachment(file_data: Seq<u8>) -> Result<Seq<u8>, AttachmentError> {
    match data_url_payload(file_data) {
        None => Err(AttachmentError::MissingSeparator),
        Some(p) => match base64_standard_decoded(p) {
            Some(b) => Ok(b),
            None => Err(AttachmentError::InvalidBase64),
        },
    }
}

/// Finds the first comma of `s`.
fn find_first_comma(s: &[u8]) -> (r: Option<usize>)
    ensures
        match r {
            Some(i) => i < s@.len() && first_comma_from(s@, 0) == Some(i as int),
            None => first_comma_from(s@, 0) is None,
        },
{
    let mut i: usize = 0;
    while i < s.len()
        invariant
            0 <= i <= s@.len(),
            first_comma_from(s@, 0) == first_comma_from(s@, i as int),
        decreases s@.len() - i,
    {
        if s[i] == 0x2c {
            return Some(i);
        }
        i = i + 1;
    }
    None
}

/// Decodes the base64 payload that follows the first comma of `file_data`.
pub fn decode_attachment(file_data: &str) -> (r: Result<Vec<u8>, AttachmentError>)
    ensures
        match r {
            Ok(b) => decoded_attachment(file_data.spec_bytes()) == Ok::<Seq<u8>, AttachmentError>(b@),
            Err(e) => decoded_attachment(file_data.spec_bytes()) == Err::<Seq<u8>, AttachmentError>(e),
        },
{
    let bytes = file_data.as_bytes();
    let n = bytes.len();
    match find_first_comma(bytes) {
        None => Err(AttachmentError::MissingSeparator),
        Some(i) => {
            let payload = slice_subrange(bytes, i + 1, n);
            match base64_decode(payload) {
                Ok(b) => Ok(b),
                Err(_) => Err(AttachmentError::InvalidBase64),
            }
        },
    }
}

/// The path under which an attachment named `file_name` is stored: the
/// `uploads` directory, relative to the working directory.
pub fn attachment_path(file_name: &str) -> (r: String)
    ensures
        r@ == "uploads/"@ + file_name@,
{
    let mut p = String::from_str("uploads/");
    p.append(file_name);
    p
}

proof fn lemma_first_comma_reached(s: Seq<u8>, m: int, j: int)
    requires
        0 <= j <= m < s.len(),
        s[m] == 0x2c,
        forall|i: int| 0 <= i < m ==> s[i] != 0x2c,
    ensures
        first_comma_from(s, j) == Some(m),
    decreases m - j,
{
    if j < m {
        lemma_first_comma_reached(s, m, j + 1);
    }
}

/// Whatever precedes the first comma, the payload that follows it is what gets
/// decoded.
pub proof fn lemma_payload_after_first_comma(metadata: Seq<u8>, payload: Seq<u8>)
    requires
        forall|i: int| 0 <= i < metadata.len() ==> metadata[i] != 0x2c,
    ensures
        data_url_payload(metadata + seq![0x2cu8] + payload) == Some(payload),
        decoded_attachment(metadata + seq![0x2cu8] + payload) == match base64_standard_decoded(payload) {
            Some(b) => Ok(b),
            None => Err::<Seq<u8>, AttachmentError>(AttachmentError::InvalidBase64),
        },
{
    let s = metadata + seq![0x2cu8] + payload;
    let m = metadata.len() as int;
    lemma_first_comma_reached(s, m, 0);
    assert(first_comma_from(s, 0) == Some(m));
    assert(s.subrange(m + 1, s.len() as int) =~= payload);
}

} // verus!
