//! Requests for media, and what comes back.
use vstd::prelude::*;

use crate::codec;
use crate::text;

verus! {

broadcast use vstd::string::group_string_axioms;

/// Generated media: a base64 payload and the extension that its bytes really
/// are.
#[derive(Debug, Clone, PartialEq, Eq)]
pub struct GeneratedMedia {
    pub base64_data: String,
    pub extension: String,
}

/// An input image for a provider that takes one.
#[derive(Debug, Clone, PartialEq, Eq)]
pub struct ImageReference {
    pub mime: String,
    pub base64: String,
}

impl ImageReference {
    /// The image as a data URL.
    pub fn data_url(&self) -> (r: String)
        ensures
            r@ == codec::data_url_of(self.mime@, self.base64@),
    {
        codec::make_data_url(self.mime.as_str(), self.base64.as_str())
    }
}

#[derive(Debug, Clone, Copy)]
pub struct ImageRequest<'a> {
    pub model: &'a str,
    pub prompt: &'a str,
    pub reference: Option<&'a ImageReference>,
}

#[derive(Debug, Clone, Copy)]
pub struct TtsRequest<'a> {
    pub model: &'a str,
    pub text: &'a str,
    /// A hint in words; each provider maps it to its own voices.
    pub voice_prompt: &'a str,
    /// A format that `normalize_audio_format` gives.
    pub format: &'a str,
}

#[derive(Debug, Clone, Copy)]
pub struct MusicRequest<'a> {
    pub model: &'a str,
    pub prompt: &'a str,
    pub format: &'a str,
}

/// How far a long media job has come.
#[derive(Debug, Clone, PartialEq, Eq)]
pub struct AiMediaGenerationProgress {
    pub provider: String,
    pub model: String,
    pub phase: String,
    pub attempt: u8,
    pub total_attempts: u8,
    pub message: String,
}

/// A text without the dots that it begins with.
pub open spec fn undotted(s: Seq<char>) -> Seq<char>
    decreases s.len(),
{
    if s.len() > 0 && s[0] == '.' {
        undotted(s.drop_first())
    } else {
        s
    }
}

fn strip_dots(s: &str) -> (r: String)
    ensures
        r@ == undotted(s@),
{
    let chars = text::chars_of(s);
    let mut i: usize = 0;
    assert(s@.skip(0) =~= s@);
    while i < chars.len() && chars[i] == '.'
        invariant
            i <= chars.len(),
            chars@ == s@,
            undotted(s@) == undotted(s@.skip(i as int)),
        decreases chars.len() - i,
    {
        assert(s@.skip(i as int).drop_first() =~= s@.skip(i + 1));
        i += 1;
    }
    assert(s@.subrange(i as int, s@.len() as int) =~= s@.skip(i as int));
    text::string_of_range(&chars, i, chars.len())
}

/// The audio format that a text asks for; MP3 where it names none that is known.
pub open spec fn audio_format(value: Seq<char>) -> Seq<char> {
    let f = text::ascii_lowercase(undotted(text::trim_of(value)));
    if f == "opus"@ || f == "aac"@ || f == "flac"@ || f == "wav"@ || f == "pcm"@ {
        f
    } else {
        "mp3"@
    }
}

pub fn normalize_audio_format(value: &str) -> (r: &'static str)
    ensures
        r@ == audio_format(value@),
{
    let trimmed = text::trim(value);
    let plain = strip_dots(trimmed.as_str());
    let lower = text::to_ascii_lowercase(plain.as_str());
    let f = lower.as_str();
    if text::same(f, "opus") {
        "opus"
    } else if text::same(f, "aac") {
        "aac"
    } else if text::same(f, "flac") {
        "flac"
    } else if text::same(f, "wav") {
        "wav"
    } else if text::same(f, "pcm") {
        "pcm"
    } else {
        "mp3"
    }
}

/// The extension for a media type; the fallback where the type says nothing.
pub open spec fn mime_extension(mime: Seq<char>, fallback: Seq<char>) -> Seq<char> {
    if mime == "image/jpeg"@ {
        "jpg"@
    } else if mime == "image/webp"@ {
        "webp"@
    } else if mime == "audio/wav"@ || mime == "audio/x-wav"@ {
        "wav"@
    } else if mime == "audio/mpeg"@ || mime == "audio/mp3"@ {
        "mp3"@
    } else if mime == "audio/ogg"@ {
        "ogg"@
    } else if mime == "audio/flac"@ {
        "flac"@
    } else {
        fallback
    }
}

pub fn extension_from_mime(mime_type: &str, fallback: &str) -> (r: String)
    ensures
        r@ == mime_extension(mime_type@, fallback@),
{
    let extension = if text::same(mime_type, "image/jpeg") {
        "jpg"
    } else if text::same(mime_type, "image/webp") {
        "webp"
    } else if text::same(mime_type, "audio/wav") || text::same(mime_type, "audio/x-wav") {
        "wav"
    } else if text::same(mime_type, "audio/mpeg") || text::same(mime_type, "audio/mp3") {
        "mp3"
    } else if text::same(mime_type, "audio/ogg") {
        "ogg"
    } else if text::same(mime_type, "audio/flac") {
        "flac"
    } else {
        fallback
    };
    text::copy(extension)
}

/// Whether a text has the head of a base64 data URL before its first comma.
pub open spec fn has_data_head(value: Seq<char>) -> bool {
    let i = text::index_of(value, ',');
    i < value.len() && text::begins(value, "data:"@) && text::ends(value.take(i), ";base64"@)
}

/// What follows the head of a base64 data URL; all of a text without such a head.
pub open spec fn data_payload(value: Seq<char>) -> Seq<char> {
    if has_data_head(value) {
        value.skip(text::index_of(value, ',') + 1)
    } else {
        value
    }
}

/// Strips the head of a base64 data URL, if there is one.
pub fn strip_data_url_prefix(value: &str) -> (r: String)
    ensures
        r@ == data_payload(value@),
{
    let chars = text::chars_of(value);
    proof {
        text::lemma_index_of(value@, ',');
    }
    let i = text::find_from(&chars, 0, ',');
    assert(value@.skip(0) =~= value@);
    if i < chars.len() {
        let head = text::string_of_range(&chars, 0, i);
        assert(head@ =~= value@.take(i as int));
        if text::starts_with(value, "data:") && text::ends_with(head.as_str(), ";base64") {
            assert(value@.subrange(i + 1, value@.len() as int) =~= value@.skip(i + 1));
            return text::string_of_range(&chars, i + 1, chars.len());
        }
    }
    text::copy(value)
}

/// Stripping the head of a data URL gives its payload back, whatever its media
/// type, as long as that has no comma.
pub proof fn data_urls_give_their_payload(media: Seq<char>, payload: Seq<char>)
    requires
        !media.contains(','),
    ensures
        data_payload(codec::data_url_of(media, payload)) == payload,
{
    reveal_strlit("data:");
    reveal_strlit(";base64,");
    let url = codec::data_url_of(media, payload);
    let k = media.len() as int + 12;
    assert(url[k] == ',');
    assert forall|j: int| 0 <= j < k implies url[j] != ',' by {
        if 5 <= j < 5 + media.len() {
            assert(url[j] == media[j - 5]);
        }
    }
    text::lemma_index_of_unique(url, ',', k);
    assert(text::begins(url, "data:"@)) by {
        assert(url.subrange(0, 5) =~= "data:"@);
    }
    assert(text::ends(url.take(k), ";base64"@)) by {
        reveal_strlit(";base64");
        assert(url.take(k).subrange(k - 7, k) =~= ";base64"@);
    }
    assert(url.skip(k + 1) =~= payload);
}

/// A text that is no base64 data URL comes back whole.
pub proof fn other_texts_are_kept(value: Seq<char>)
    requires
        !text::begins(value, "data:"@) || !text::occurs(value, ";base64,"@),
    ensures
        data_payload(value) == value,
{
    reveal_strlit(";base64");
    reveal_strlit(";base64,");
    let i = text::index_of(value, ',');
    text::lemma_index_of(value, ',');
    if has_data_head(value) {
        let head = value.take(i);
        assert(head.subrange(i - 7, i) == ";base64"@);
        assert forall|j: int| 0 <= j < 8 implies value.subrange(i - 7, i + 1)[j]
            == ";base64,"@[j] by {
            if j < 7 {
                assert(head.subrange(i - 7, i)[j] == ";base64"@[j]);
            }
        }
        assert(value.subrange(i - 7, i + 1) =~= ";base64,"@);
        assert(text::occurs_at(value, ";base64,"@, i - 7));
    }
}

/// A format is read without white space, leading dots and regard to case; the five others are told,
/// and everything else is MP3.
pub proof fn audio_formats_are_known_or_mp3(value: Seq<char>)
    ensures
        ({
            let f = text::ascii_lowercase(undotted(text::trim_of(value)));
            let r = audio_format(value);
            &&& f == "opus"@ || f == "aac"@ || f == "flac"@ || f == "wav"@ || f == "pcm"@ ==> r == f
            &&& f != "opus"@ && f != "aac"@ && f != "flac"@ && f != "wav"@ && f != "pcm"@ ==> r
                == "mp3"@
        }),
{
}

/// The dots in front of a format are taken away and nothing else.
pub proof fn leading_dots_are_taken_away(s: Seq<char>) -> (n: int)
    ensures
        0 <= n <= s.len(),
        undotted(s) == s.subrange(n, s.len() as int),
        forall|i: int| 0 <= i < n ==> #[trigger] s[i] == '.',
        n < s.len() ==> s[n] != '.',
    decreases s.len(),
{
    if s.len() > 0 && s[0] == '.' {
        let t = s.drop_first();
        let n = leading_dots_are_taken_away(t);
        assert(t.subrange(n, t.len() as int) =~= s.subrange(n + 1, s.len() as int));
        assert forall|i: int| 0 <= i < n + 1 implies #[trigger] s[i] == '.' by {
            if i > 0 {
                assert(t[i - 1] == '.');
            }
        }
        n + 1
    } else {
        assert(s.subrange(0, s.len() as int) =~= s);
        0
    }
}

/// The media types of pictures and sounds have their extension; any other has the one that the
/// caller falls back on.
pub proof fn media_types_have_their_extension(mime: Seq<char>, fallback: Seq<char>)
    ensures
        mime_extension("image/jpeg"@, fallback) == "jpg"@,
        mime_extension("image/webp"@, fallback) == "webp"@,
        mime_extension("audio/wav"@, fallback) == "wav"@,
        mime_extension("audio/x-wav"@, fallback) == "wav"@,
        mime_extension("audio/mpeg"@, fallback) == "mp3"@,
        mime_extension("audio/mp3"@, fallback) == "mp3"@,
        mime_extension("audio/ogg"@, fallback) == "ogg"@,
        mime_extension("audio/flac"@, fallback) == "flac"@,
        mime != "image/jpeg"@ && mime != "image/webp"@ && mime != "audio/wav"@ && mime
            != "audio/x-wav"@ && mime != "audio/mpeg"@ && mime != "audio/mp3"@ && mime
            != "audio/ogg"@ && mime != "audio/flac"@ ==> mime_extension(mime, fallback) == fallback,
{
    reveal_strlit("image/jpeg");
    reveal_strlit("image/webp");
    reveal_strlit("audio/wav");
    reveal_strlit("audio/x-wav");
    reveal_strlit("audio/mpeg");
    reveal_strlit("audio/mp3");
    reveal_strlit("audio/ogg");
    reveal_strlit("audio/flac");
    assert("image/jpeg"@[6] == 'j' && "image/webp"@[6] == 'w' && "audio/wav"@[6] == 'w'
        && "audio/x-wav"@[6] == 'x' && "audio/mpeg"@[6] == 'm' && "audio/mp3"@[6] == 'm'
        && "audio/ogg"@[6] == 'o' && "audio/flac"@[6] == 'f');
    assert("image/jpeg"@.len() == 10 && "image/webp"@.len() == 10 && "audio/wav"@.len() == 9
        && "audio/x-wav"@.len() == 11 && "audio/mpeg"@.len() == 10 && "audio/mp3"@.len() == 9
        && "audio/ogg"@.len() == 9 && "audio/flac"@.len() == 10);
    assert("image/jpeg"@[0] == 'i' && "image/webp"@[0] == 'i' && "audio/mpeg"@[0] == 'a');
}

} // verus!
