//! Cassettes: exchanges with a provider, recorded to be replayed.
//!
//! An exchange is looked up by the text of its request, so that a cassette
//! answers only the prompts that it was recorded for.
use vstd::prelude::*;

use crate::agents::router;
use crate::ai::secrets;
use crate::codec;
use crate::order;
use crate::order::ByText;
use crate::paths;
use crate::text;

verus! {

broadcast use vstd::string::group_string_axioms;

pub const CASSETTE_VERSION: u32 = 1;

pub const CASSETTE_FILE: &'static str = "cassette.json";

pub const BLOB_DIR: &'static str = "blobs";

/// What stands between the two halves of a request where it is hashed.
pub const HASH_SEPARATOR: u8 = 0x1f;

#[derive(Debug, PartialEq, Eq)]
pub struct Cassette {
    pub version: u32,
    pub recorded_at_ms: u128,
    pub provider: String,
    pub model: String,
    pub interactions: Vec<Interaction>,
}

#[derive(Debug, PartialEq, Eq)]
pub struct Interaction {
    pub seq: usize,
    pub kind: InteractionKind,
    pub request_hash: String,
    pub request: Request,
    pub response: Response,
    pub elapsed_ms: u64,
}

#[derive(Debug, Clone, Copy, PartialEq, Eq, Structural)]
pub enum InteractionKind {
    /// A turn of a chat, a repair among them.
    Chat,
    /// Media, whose bytes are kept as a blob.
    Media,
}

#[derive(Debug, PartialEq, Eq)]
pub struct Request {
    pub system: String,
    pub user: String,
}

#[derive(Debug, PartialEq, Eq)]
pub struct Response {
    pub text: Option<String>,
    pub model: Option<String>,
    pub prompt_tokens: Option<u32>,
    pub completion_tokens: Option<u32>,
    /// The blob of media.
    pub blob: Option<String>,
}

// ---------------------------------------------------------------------------
// Hashes
// ---------------------------------------------------------------------------

/// The bytes of a request that are hashed.
pub open spec fn hashed_bytes(system: Seq<char>, user: Seq<char>) -> Seq<u8> {
    vstd::utf8::encode_utf8(system).push(HASH_SEPARATOR) + vstd::utf8::encode_utf8(user)
}

/// The hash of a request.
pub open spec fn hash_of(system: Seq<char>, user: Seq<char>) -> Seq<char> {
    "sha256:"@ + text::hex(codec::sha256_of(hashed_bytes(system, user)))
}

/// How a digest is written.
pub fn show_digest(digest: &Vec<u8>) -> (r: String)
    ensures
        r@ == "sha256:"@ + text::hex(digest@),
{
    let shown = text::hex_of(digest);
    router::joined("sha256:", shown.as_str())
}

pub fn request_hash(system: &str, user: &str) -> (r: String)
    ensures
        r@ == hash_of(system@, user@),
{
    let mut bytes = text::bytes_of(system);
    bytes.push(HASH_SEPARATOR);
    let mut tail = text::bytes_of(user);
    bytes.append(&mut tail);
    let digest = codec::sha256(&bytes);
    show_digest(&digest)
}

proof fn lemma_encode_joined(a: Seq<char>, b: Seq<char>)
    ensures
        vstd::utf8::encode_utf8(a + b) == vstd::utf8::encode_utf8(a) + vstd::utf8::encode_utf8(b),
    decreases a.len(),
{
    if a.len() == 0 {
        assert(a + b =~= b);
        assert(vstd::utf8::encode_utf8(a) =~= Seq::<u8>::empty());
        assert(Seq::<u8>::empty() + vstd::utf8::encode_utf8(b) =~= vstd::utf8::encode_utf8(b));
    } else {
        let t = a.drop_first();
        lemma_encode_joined(t, b);
        assert((a + b).drop_first() =~= t + b);
        assert((a + b)[0] == a[0]);
        let head = vstd::utf8::encode_scalar(a[0] as u32);
        assert(head + (vstd::utf8::encode_utf8(t) + vstd::utf8::encode_utf8(b)) =~= (head
            + vstd::utf8::encode_utf8(t)) + vstd::utf8::encode_utf8(b));
    }
}

proof fn lemma_hashed_bytes(system: Seq<char>, user: Seq<char>)
    ensures
        hashed_bytes(system, user) == vstd::utf8::encode_utf8(system.push('\u{1f}') + user),
{
    let sep = seq!['\u{1f}'];
    lemma_encode_joined(system, sep);
    lemma_encode_joined(system.push('\u{1f}'), user);
    assert(system + sep =~= system.push('\u{1f}'));
    assert(sep.drop_first() =~= Seq::<char>::empty());
    reveal_with_fuel(vstd::utf8::encode_utf8, 2);
    assert(vstd::utf8::leading_byte_width_1(0x1f) == 0x1f) by (bit_vector);
    assert(vstd::utf8::encode_scalar(0x1f) =~= seq![HASH_SEPARATOR]);
    assert(vstd::utf8::encode_utf8(sep) =~= seq![HASH_SEPARATOR]);
    assert(vstd::utf8::encode_utf8(system) + seq![HASH_SEPARATOR] =~= vstd::utf8::encode_utf8(
        system,
    ).push(HASH_SEPARATOR));
}

/// What is hashed of a request tells its two halves apart: no two requests are
/// hashed from the same bytes, as long as no system prompt holds the separator.
pub proof fn requests_are_hashed_apart(
    system: Seq<char>,
    user: Seq<char>,
    other_system: Seq<char>,
    other_user: Seq<char>,
)
    requires
        !system.contains('\u{1f}'),
        !other_system.contains('\u{1f}'),
        hashed_bytes(system, user) == hashed_bytes(other_system, other_user),
    ensures
        system == other_system,
        user == other_user,
{
    broadcast use vstd::utf8::encode_utf8_decode_utf8;

    let a = system.push('\u{1f}') + user;
    let b = other_system.push('\u{1f}') + other_user;
    lemma_hashed_bytes(system, user);
    lemma_hashed_bytes(other_system, other_user);
    assert(vstd::utf8::decode_utf8(vstd::utf8::encode_utf8(a)) == a);
    assert(vstd::utf8::decode_utf8(vstd::utf8::encode_utf8(b)) == b);
    assert(a == b);
    let n = system.len() as int;
    let m = other_system.len() as int;
    assert(a[n] == '\u{1f}');
    assert(b[m] == '\u{1f}');
    if n < m {
        assert(b[n] == other_system[n]);
    } else if m < n {
        assert(a[m] == system[m]);
    }
    assert forall|j: int| 0 <= j < n implies system[j] == other_system[j] by {
        assert(a[j] == b[j]);
    }
    assert(system =~= other_system);
    assert forall|j: int| 0 <= j < user.len() implies user[j] == other_user[j] by {
        assert(a[n + 1 + j] == b[n + 1 + j]);
    }
    assert(user =~= other_user);
}

// ---------------------------------------------------------------------------
// Places
// ---------------------------------------------------------------------------

/// The clock, `std::time::SystemTime::now`, in milliseconds since the start of 1970;
/// nothing where it stands before that. Nothing more is said of it, as it depends on
/// the machine.
#[verifier::external_body]
fn clock() -> (r: Option<u128>) {
    std::time::SystemTime::now().duration_since(std::time::UNIX_EPOCH).ok().map(|d| d.as_millis())
}

/// The time that a clock shows, which is zero where it stands before 1970.
pub fn shown_time(clock: Option<u128>) -> (r: u128)
    ensures
        r == (match clock {
            Some(ms) => ms,
            None => 0,
        }),
{
    match clock {
        Some(ms) => ms,
        None => 0,
    }
}

/// The time, in milliseconds.
pub fn now_ms() -> (r: u128) {
    shown_time(clock())
}

/// Where cassettes are kept below a package's directory.
pub fn default_root(package_dir: &str) -> (r: String)
    ensures
        r@ == paths::joined(paths::joined(package_dir@, "fixtures"@), "agent-harness"@),
{
    let fixtures = paths::join(package_dir, "fixtures");
    paths::join(fixtures.as_str(), "agent-harness")
}

/// The directory of a cassette.
pub fn cassette_dir(root: &str, name: &str) -> (r: String)
    ensures
        r@ == paths::joined(root@, name@),
{
    paths::join(root, name)
}

/// The file of a cassette.
pub fn cassette_path(root: &str, name: &str) -> (r: String)
    ensures
        r@ == paths::joined(paths::joined(root@, name@), CASSETTE_FILE@),
{
    let dir = cassette_dir(root, name);
    paths::join(dir.as_str(), CASSETTE_FILE)
}

/// Accepts a cassette that was read, where this version understands it.
pub fn load(path: &str, cassette: Cassette) -> (r: Result<Cassette, String>)
    ensures
        if cassette.version == CASSETTE_VERSION {
            r == Ok::<Cassette, String>(cassette)
        } else {
            r matches Err(m) && m@ == "cassette "@ + path@ + " has version "@ + text::decimal(
                cassette.version as nat,
            ) + ", this build understands "@ + text::decimal(CASSETTE_VERSION as nat)
        },
{
    if cassette.version != CASSETTE_VERSION {
        let found = text::decimal_of(cassette.version as u128);
        let known = text::decimal_of(CASSETTE_VERSION as u128);
        let mut m = text::copy("cassette ");
        m.append(path);
        m.append(" has version ");
        m.append(found.as_str());
        m.append(", this build understands ");
        m.append(known.as_str());
        return Err(m);
    }
    Ok(cassette)
}

/// The name of the file that keeps media, from its bytes.
pub open spec fn blob_file(bytes: Seq<u8>, extension: Seq<char>) -> Seq<char> {
    text::hex(codec::sha256_of(bytes)) + "."@ + extension
}

/// Where media of a digest is kept: the name of its file, and how a cassette
/// refers to it.
pub fn name_blob(digest: &Vec<u8>, extension: &str) -> (r: (String, String))
    ensures
        r.0@ == text::hex(digest@) + "."@ + extension@,
        r.1@ == BLOB_DIR@ + "/"@ + (text::hex(digest@) + "."@ + extension@),
{
    let mut file_name = text::hex_of(digest);
    file_name.append(".");
    file_name.append(extension);
    let mut reference = text::copy(BLOB_DIR);
    reference.append("/");
    reference.append(file_name.as_str());
    (file_name, reference)
}

/// Where media is kept: the name of its file, and how a cassette refers to it.
pub fn save_blob(bytes: &Vec<u8>, extension: &str) -> (r: (String, String))
    ensures
        r.0@ == blob_file(bytes@, extension@),
        r.1@ == BLOB_DIR@ + "/"@ + blob_file(bytes@, extension@),
{
    let digest = codec::sha256(bytes);
    name_blob(&digest, extension)
}

/// The names of cassettes, in order.
pub fn list(names: Vec<String>) -> (r: Vec<String>)
    ensures
        order::sorted::<ByText>(text::texts(r@)),
        text::texts(r@).to_multiset() == text::texts(names@).to_multiset(),
{
    order::sort::<ByText>(names)
}

// ---------------------------------------------------------------------------
// Soundness
// ---------------------------------------------------------------------------

/// Whether an earlier interaction has the same hash.
pub open spec fn answered_at(v: Seq<Interaction>, j: int, i: int) -> bool {
    0 <= j < i < v.len() && v[j].request_hash@ == v[i].request_hash@
}

/// Whether no two interactions have the same hash.
pub open spec fn distinct_requests(v: Seq<Interaction>) -> bool {
    forall|j: int, i: int| !(#[trigger] answered_at(v, j, i))
}

/// Whether a message names the first two interactions with the same hash.
pub open spec fn names_clash(v: Seq<Interaction>, m: Seq<char>) -> bool {
    exists|j: int, i: int| #[trigger]
        answered_at(v, j, i) && distinct_requests(v.take(i)) && m == "interactions "@
            + text::decimal(v[j].seq as nat) + " and "@ + text::decimal(v[i].seq as nat)
            + " share request hash "@ + v[i].request_hash@
            + " — the same prompt has two recorded answers"@
}

/// Refuses a cassette in which one prompt has two answers: a replay would give
/// whichever came first.
pub fn verify(cassette: &Cassette) -> (r: Result<(), String>)
    ensures
        r is Ok <==> distinct_requests(cassette.interactions@),
        r matches Err(m) ==> names_clash(cassette.interactions@, m@),
{
    let ghost all = cassette.interactions@;
    let n = cassette.interactions.len();
    let mut i: usize = 0;
    while i < n
        invariant
            i <= n,
            n == all.len(),
            all == cassette.interactions@,
            distinct_requests(all.take(i as int)),
        decreases n - i,
    {
        let mut j: usize = 0;
        while j < i
            invariant
                j <= i < n,
                n == all.len(),
                all == cassette.interactions@,
                distinct_requests(all.take(i as int)),
                forall|k: int| 0 <= k < j ==> !(#[trigger] answered_at(all, k, i as int)),
            decreases i - j,
        {
            if text::same(
                cassette.interactions[j].request_hash.as_str(),
                cassette.interactions[i].request_hash.as_str(),
            ) {
                let first = text::decimal_of(cassette.interactions[j].seq as u128);
                let second = text::decimal_of(cassette.interactions[i].seq as u128);
                let mut m = text::copy("interactions ");
                m.append(first.as_str());
                m.append(" and ");
                m.append(second.as_str());
                m.append(" share request hash ");
                m.append(cassette.interactions[i].request_hash.as_str());
                m.append(" — the same prompt has two recorded answers");
                assert(answered_at(all, j as int, i as int));
                return Err(m);
            }
            assert(!answered_at(all, j as int, i as int));
            j += 1;
        }
        proof {
            let t = all.take(i + 1);
            assert forall|a: int, b: int| !(#[trigger] answered_at(t, a, b)) by {
                if answered_at(t, a, b) {
                    if b < i {
                        assert(answered_at(all.take(i as int), a, b));
                    } else {
                        assert(answered_at(all, a, i as int));
                    }
                }
            }
        }
        i += 1;
    }
    assert(all.take(n as int) =~= all);
    Ok(())
}

/// A text without credentials: without the configured key, and without those
/// that their beginnings give away.
pub open spec fn redacted(value: Seq<char>, api_key: Seq<char>) -> Seq<char> {
    secrets::swept(
        if text::blank(api_key) {
            value
        } else {
            secrets::scrubbed(value, api_key)
        },
    )
}

/// Takes credentials out of anything that is about to be kept.
pub fn redact(value: &str, api_key: &str) -> (r: String)
    ensures
        r@ == redacted(value@, api_key@),
{
    let known = secrets::redact_known_secret(value, api_key);
    secrets::redact_common_secrets(known.as_str())
}

// ---------------------------------------------------------------------------
// Lookup
// ---------------------------------------------------------------------------

/// Whether an interaction is the first of a request.
pub open spec fn first_of(v: Seq<Interaction>, i: int, hash: Seq<char>) -> bool {
    0 <= i < v.len() && v[i].request_hash@ == hash && forall|j: int|
        0 <= j < i ==> (#[trigger] v[j]).request_hash@ != hash
}

/// Whether a request was recorded.
pub open spec fn recorded(v: Seq<Interaction>, hash: Seq<char>) -> bool {
    exists|i: int| 0 <= i < v.len() && (#[trigger] v[i]).request_hash@ == hash
}

impl Cassette {
    /// A cassette with nothing on it, recorded now.
    pub fn new(provider: String, model: String) -> (r: Cassette)
        ensures
            r.version == CASSETTE_VERSION,
            r.provider == provider,
            r.model == model,
            r.interactions@.len() == 0,
    {
        Cassette {
            version: CASSETTE_VERSION,
            recorded_at_ms: now_ms(),
            provider,
            model,
            interactions: Vec::new(),
        }
    }

    /// Where an exchange stands, by the hash of its request.
    pub fn position_of(&self, hash: &str) -> (r: Option<usize>)
        ensures
            match r {
                Some(i) => first_of(self.interactions@, i as int, hash@),
                None => !recorded(self.interactions@, hash@),
            },
    {
        let mut i: usize = 0;
        while i < self.interactions.len()
            invariant
                i <= self.interactions.len(),
                forall|j: int|
                    0 <= j < i ==> (#[trigger] self.interactions@[j]).request_hash@ != hash@,
            decreases self.interactions.len() - i,
        {
            if text::same(self.interactions[i].request_hash.as_str(), hash) {
                return Some(i);
            }
            i += 1;
        }
        None
    }

    /// Where an exchange stands, by its request.
    pub fn position(&self, system: &str, user: &str) -> (r: Option<usize>)
        ensures
            match r {
                Some(i) => first_of(self.interactions@, i as int, hash_of(system@, user@)),
                None => !recorded(self.interactions@, hash_of(system@, user@)),
            },
    {
        let hash = request_hash(system, user);
        self.position_of(hash.as_str())
    }

    /// Looks an exchange up by its request; `None` where the prompt is another
    /// one, or was never recorded.
    pub fn find(&self, system: &str, user: &str) -> (r: Option<&Interaction>)
        ensures
            match r {
                Some(found) => exists|i: int| #[trigger]
                    first_of(self.interactions@, i, hash_of(system@, user@)) && *found
                        == self.interactions@[i],
                None => !recorded(self.interactions@, hash_of(system@, user@)),
            },
    {
        match self.position(system, user) {
            Some(i) => Some(&self.interactions[i]),
            None => None,
        }
    }
}

/// A request is told by the SHA-256 of its two prompts with the unit separator between them, in
/// hexadecimal; a blob by that of its bytes and its extension.
pub proof fn requests_and_blobs_are_told_by_their_digest(
    system: Seq<char>,
    user: Seq<char>,
    bytes: Seq<u8>,
    extension: Seq<char>,
)
    ensures
        hash_of(system, user) == "sha256:"@ + text::hex(
            codec::sha256_of(
                vstd::utf8::encode_utf8(system) + seq![31u8] + vstd::utf8::encode_utf8(user),
            ),
        ),
        blob_file(bytes, extension) == text::hex(codec::sha256_of(bytes)) + "."@ + extension,
        BLOB_DIR@ == "blobs"@,
        CASSETTE_FILE@ == "cassette.json"@,
        CASSETTE_VERSION == 1,
{
    assert(hashed_bytes(system, user) =~= vstd::utf8::encode_utf8(system) + seq![31u8]
        + vstd::utf8::encode_utf8(user));
}

/// A cassette is sound where no two interactions answer the same request.
pub proof fn sound_cassettes_answer_a_request_once(v: Seq<Interaction>, i: int, j: int)
    ensures
        distinct_requests(v) && 0 <= j < i < v.len() ==> v[i].request_hash@ != v[j].request_hash@,
        !distinct_requests(v) ==> exists|a: int, b: int| #[trigger]
            answered_at(v, b, a) && 0 <= b < a < v.len() && v[a].request_hash@
                == v[b].request_hash@,
{
    if distinct_requests(v) {
        assert(!answered_at(v, j, i));
    }
}

/// The clash that is reported is that of the first interaction that repeats an earlier one, with the
/// two numbers.
pub proof fn clashes_are_reported_at_the_first_repeat(v: Seq<Interaction>, m: Seq<char>) -> (r: (
    int,
    int,
))
    requires
        names_clash(v, m),
    ensures
        0 <= r.0 < r.1 < v.len(),
        v[r.0].request_hash@ == v[r.1].request_hash@,
        forall|a: int, b: int|
            0 <= b < a < r.1 ==> (#[trigger] v[a]).request_hash@ != (#[trigger] v[b]).request_hash@,
        m == "interactions "@ + text::decimal(v[r.0].seq as nat) + " and "@ + text::decimal(
            v[r.1].seq as nat,
        ) + " share request hash "@ + v[r.1].request_hash@
            + " — the same prompt has two recorded answers"@,
{
    let (j, i) = choose|j: int, i: int| #[trigger]
        answered_at(v, j, i) && distinct_requests(v.take(i)) && m == "interactions "@
            + text::decimal(v[j].seq as nat) + " and "@ + text::decimal(v[i].seq as nat)
            + " share request hash "@ + v[i].request_hash@
            + " — the same prompt has two recorded answers"@;
    assert(answered_at(v, j, i));
    let t = v.take(i);
    assert forall|a: int, b: int| 0 <= b < a < i implies (#[trigger] v[a]).request_hash@ != (
    #[trigger] v[b]).request_hash@ by {
        assert(!answered_at(t, b, a));
        assert(t[a] == v[a] && t[b] == v[b]);
    }
    (j, i)
}

/// What is recorded is rid of the key that was used, unless that is blank, and of whatever looks
/// like a key.
pub proof fn recordings_are_rid_of_keys(value: Seq<char>, api_key: Seq<char>)
    ensures
        text::blank(api_key) ==> redacted(value, api_key) == secrets::swept(value),
        !text::blank(api_key) ==> redacted(value, api_key) == secrets::swept(
            secrets::scrubbed(value, api_key),
        ),
{
}

/// A request is answered by the first interaction that has its hash, where there is one.
pub proof fn requests_are_answered_by_the_first_of_their_hash(
    v: Seq<Interaction>,
    hash: Seq<char>,
    i: int,
)
    ensures
        first_of(v, i, hash) <==> 0 <= i < v.len() && v[i].request_hash@ == hash && forall|j: int|
            0 <= j < i ==> (#[trigger] v[j]).request_hash@ != hash,
        first_of(v, i, hash) ==> recorded(v, hash),
        recorded(v, hash) <==> exists|k: int|
            0 <= k < v.len() && (#[trigger] v[k]).request_hash@ == hash,
{
    if first_of(v, i, hash) {
        assert(v[i].request_hash@ == hash);
    }
}

} // verus!
