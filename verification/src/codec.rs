//! Digests, transfer encodings and media types, as the crates that compute
//! them give them.
use base64::Engine;
use sha2::Digest;
use vstd::prelude::*;

verus! {

/// The SHA-256 digest of a byte string.
pub uninterp spec fn sha256_of(bytes: Seq<u8>) -> Seq<u8>;

/// The standard base64 text of a byte string, padded.
pub uninterp spec fn base64_of(bytes: Seq<u8>) -> Seq<char>;

/// The bytes that a standard base64 text stands for, or the decoder's message.
pub uninterp spec fn base64_bytes(text: Seq<char>) -> Result<Seq<u8>, Seq<char>>;

/// The outcome of a decoding that gives these bytes.
pub open spec fn decodes_to(bytes: Seq<u8>) -> Result<Seq<u8>, Seq<char>> {
    Ok(bytes)
}

/// The media type of a file extension.
pub uninterp spec fn media_type_of(extension: Seq<char>) -> Seq<char>;

/// `sha2::Sha256::digest`: thirty-two bytes, a function of the input alone.
#[verifier::external_body]
pub(crate) fn sha256(bytes: &Vec<u8>) -> (r: Vec<u8>)
    ensures
        r@ == sha256_of(bytes@),
        r@.len() == 32,
{
    sha2::Sha256::digest(bytes.as_slice()).to_vec()
}

/// `base64::Engine::encode` of the standard engine: a function of the bytes
/// alone, and decoding its text gives the bytes back. The text must fit in
/// memory.
#[verifier::external_body]
pub(crate) fn base64_encode(bytes: &Vec<u8>) -> (r: String)
    requires
        bytes@.len() / 3 * 4 + 4 <= isize::MAX,
    ensures
        r@ == base64_of(bytes@),
        base64_bytes(r@) == decodes_to(bytes@),
{
    base64::engine::general_purpose::STANDARD.encode(bytes)
}

/// `base64::Engine::decode` of the standard engine: the bytes or the message
/// are a function of the text alone.
#[verifier::external_body]
pub(crate) fn base64_decode(text: &str) -> (r: Result<Vec<u8>, String>)
    ensures
        match r {
            Ok(bytes) => base64_bytes(text@) == Ok::<Seq<u8>, Seq<char>>(bytes@),
            Err(m) => base64_bytes(text@) == Err::<Seq<u8>, Seq<char>>(m@),
        },
{
    base64::engine::general_purpose::STANDARD.decode(text).map_err(|error| error.to_string())
}

/// `mime_guess::from_ext`, its first guess or `application/octet-stream`: a
/// function of the extension alone.
#[verifier::external_body]
pub(crate) fn media_type(extension: &str) -> (r: String)
    ensures
        r@ == media_type_of(extension@),
{
    mime_guess::from_ext(extension).first_or_octet_stream().to_string()
}

/// The media type of the file at a path; one without an extension has that of
/// the empty extension.
pub open spec fn media_type_at(path: Seq<char>) -> Seq<char> {
    media_type_of(
        match crate::paths::extension_of(path) {
            Some(ext) => ext,
            None => Seq::empty(),
        },
    )
}

pub fn media_type_of_path(path: &str) -> (r: String)
    ensures
        r@ == media_type_at(path@),
{
    let ext = match crate::paths::extension(path) {
        Some(ext) => ext,
        None => String::new(),
    };
    assert(crate::paths::extension_of(path@) is None ==> ext@ =~= Seq::<char>::empty());
    media_type(ext.as_str())
}

/// The URL that holds data itself.
pub open spec fn data_url_of(media: Seq<char>, encoded: Seq<char>) -> Seq<char> {
    "data:"@ + media + ";base64,"@ + encoded
}

pub fn make_data_url(media: &str, encoded: &str) -> (r: String)
    ensures
        r@ == data_url_of(media@, encoded@),
{
    let mut s = crate::text::copy("data:");
    s.append(media);
    s.append(";base64,");
    s.append(encoded);
    s
}

/// A data URL says its media type and then its base64 text; the media type of a file goes by its
/// extension, and by none where it has none.
pub proof fn data_urls_say_their_type(media: Seq<char>, encoded: Seq<char>, path: Seq<char>)
    ensures
        data_url_of(media, encoded) == "data:"@ + media + ";base64,"@ + encoded,
        crate::paths::extension_of(path) is Some ==> media_type_at(path) == media_type_of(
            crate::paths::extension_of(path)->0,
        ),
        crate::paths::extension_of(path) is None ==> media_type_at(path) == media_type_of(
            Seq::empty(),
        ),
        forall|b: Seq<u8>| #[trigger] decodes_to(b) == Ok::<Seq<u8>, Seq<char>>(b),
{
}

} // verus!
