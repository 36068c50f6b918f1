//! What the queue shows of its artifacts.
use vstd::prelude::*;

use crate::codec;

verus! {

/// The data URL by which an artifact is previewed: its media type by its path,
/// and its bytes.
pub fn asset_queue_preview_artifact(path: &str, bytes: &Vec<u8>) -> (r: String)
    requires
        bytes@.len() / 3 * 4 + 4 <= isize::MAX,
    ensures
        r@ == codec::data_url_of(codec::media_type_at(path@), codec::base64_of(bytes@)),
        codec::base64_bytes(codec::base64_of(bytes@)) matches Ok(decoded) && decoded == bytes@,
{
    let media = codec::media_type_of_path(path);
    let encoded = codec::base64_encode(bytes);
    codec::make_data_url(media.as_str(), encoded.as_str())
}

} // verus!
