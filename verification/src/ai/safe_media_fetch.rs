//! Fetching media from addresses that a provider names.
//!
//! Every hop is checked before a connection is made: the address and what it
//! resolves to, the number of redirects, the type of the response and the size
//! of its body. The caller resolves names, connects, and keeps the deadline.
use vstd::prelude::*;

use crate::agents::router;
use crate::text;

verus! {

broadcast use vstd::string::group_string_axioms;

pub const MAX_MEDIA_REDIRECTS: usize = 10;

/// The most bytes of one download.
pub const MAX_MEDIA_BYTES: u64 = 67_108_864;

/// What is fetched; it decides which types of response are accepted.
#[derive(Debug, Clone, Copy, PartialEq, Eq, Structural)]
pub enum MediaKind {
    Image,
    Audio,
}

/// What an accepted type begins with.
pub open spec fn prefix_of(kind: MediaKind) -> Seq<char> {
    match kind {
        MediaKind::Image => "image/"@,
        MediaKind::Audio => "audio/"@,
    }
}

impl MediaKind {
    pub fn allowed_prefix(self) -> (r: &'static str)
        ensures
            r@ == prefix_of(self),
    {
        match self {
            MediaKind::Image => "image/",
            MediaKind::Audio => "audio/",
        }
    }
}

// ---------------------------------------------------------------------------
// Addresses
// ---------------------------------------------------------------------------

/// An internet address.
#[derive(Debug, Clone, Copy, PartialEq, Eq)]
pub enum IpAddress {
    V4([u8; 4]),
    V6([u16; 8]),
}

/// Whether an address of four bytes, by its first three, is not one of the
/// public internet: this network, private networks, loopback, shared and
/// link-local addresses, protocol assignments, documentation, relays,
/// benchmarking, multicast and the reserved rest.
pub open spec fn reserved_v4(a: u8, b: u8, c: u8) -> bool {
    ||| a == 0
    ||| a == 10
    ||| a == 127
    ||| a == 100 && 64 <= b <= 127
    ||| a == 169 && b == 254
    ||| a == 172 && 16 <= b <= 31
    ||| a == 192 && b == 0 && c == 0
    ||| a == 192 && b == 0 && c == 2
    ||| a == 192 && b == 88 && c == 99
    ||| a == 192 && b == 168
    ||| a == 198 && (b == 18 || b == 19)
    ||| a == 198 && b == 51 && c == 100
    ||| a == 203 && b == 0 && c == 113
    ||| a >= 224
}

/// Whether an address of eight segments stands for one of four bytes: its first
/// five segments are zero, and its sixth is zero or all ones.
pub open spec fn stands_for_v4(s: Seq<u16>) -> bool {
    s[0] == 0 && s[1] == 0 && s[2] == 0 && s[3] == 0 && s[4] == 0 && (s[5] == 0 || s[5] == 0xffff)
}

/// Whether an address of eight segments is a public one: globally allocated,
/// and neither documentation, benchmarking, Teredo, ORCHID, 6to4 nor segment
/// routing.
pub open spec fn public_v6(s: Seq<u16>) -> bool {
    &&& 0x2000 <= s[0] < 0x4000
    &&& !(s[0] == 0x2001 && s[1] == 0x0db8)
    &&& !(s[0] == 0x2001 && s[1] == 0x0002)
    &&& !(s[0] == 0x2001 && s[1] == 0)
    &&& !(s[0] == 0x2001 && 0x0010 <= s[1] <= 0x002f)
    &&& s[0] != 0x2002
    &&& !(0x3ff0 <= s[0] <= 0x3fff)
    &&& s[0] != 0x5f00
}

/// Whether media may be fetched from an address.
pub open spec fn public_ip(ip: IpAddress) -> bool {
    match ip {
        IpAddress::V4(o) => !reserved_v4(o@[0], o@[1], o@[2]),
        IpAddress::V6(s) => if stands_for_v4(s@) {
            !reserved_v4(
                (s@[6] / 256) as u8,
                (s@[6] % 256) as u8,
                (s@[7] / 256) as u8,
            )
        } else {
            public_v6(s@)
        },
    }
}

fn is_reserved_v4(a: u8, b: u8, c: u8) -> (r: bool)
    ensures
        r == reserved_v4(a, b, c),
{
    a == 0 || a == 10 || a == 127 || (a == 100 && 64 <= b && b <= 127) || (a == 169 && b == 254)
        || (a == 172 && 16 <= b && b <= 31) || (a == 192 && b == 0 && c == 0) || (a == 192 && b == 0
        && c == 2) || (a == 192 && b == 88 && c == 99) || (a == 192 && b == 168) || (a == 198 && (b
        == 18 || b == 19)) || (a == 198 && b == 51 && c == 100) || (a == 203 && b == 0 && c == 113)
        || a >= 224
}

/// Whether media may be fetched from an address.
pub fn is_public_download_ip(ip: IpAddress) -> (r: bool)
    ensures
        r == public_ip(ip),
{
    match ip {
        IpAddress::V4(o) => !is_reserved_v4(o[0], o[1], o[2]),
        IpAddress::V6(s) => {
            if s[0] == 0 && s[1] == 0 && s[2] == 0 && s[3] == 0 && s[4] == 0 && (s[5] == 0 || s[5]
                == 0xffff) {
                return !is_reserved_v4(
                    (s[6] / 256) as u8,
                    (s[6] % 256) as u8,
                    (s[7] / 256) as u8,
                );
            }
            let globally_allocated = 0x2000 <= s[0] && s[0] < 0x4000;
            let documentation = s[0] == 0x2001 && s[1] == 0x0db8;
            let benchmarking = s[0] == 0x2001 && s[1] == 0x0002;
            let teredo = s[0] == 0x2001 && s[1] == 0;
            let orchid = s[0] == 0x2001 && 0x0010 <= s[1] && s[1] <= 0x002f;
            let six_to_four = s[0] == 0x2002;
            let documentation_v2 = 0x3ff0 <= s[0] && s[0] <= 0x3fff;
            let segment_routing = s[0] == 0x5f00;
            globally_allocated && !documentation && !benchmarking && !teredo && !orchid
                && !six_to_four && !documentation_v2 && !segment_routing
        },
    }
}

/// An address of eight segments that stands for one of four bytes is judged as
/// that one, so that no internal address can be written in another form.
pub proof fn mapped_addresses_are_judged_alike(s: [u16; 8], o: [u8; 4])
    requires
        stands_for_v4(s@),
        s@[6] == o@[0] * 256 + o@[1],
        s@[7] == o@[2] * 256 + o@[3],
    ensures
        public_ip(IpAddress::V6(s)) == public_ip(IpAddress::V4(o)),
{
}

// ---------------------------------------------------------------------------
// Locations
// ---------------------------------------------------------------------------

/// What a URL says: its scheme, its host and its port, with the scheme's own
/// where none is written; or why the text is no URL.
pub uninterp spec fn url_parts(url: Seq<char>) -> Result<
    (Seq<char>, Option<Seq<char>>, Option<u16>),
    Seq<char>,
>;

/// The URL that a reference leads to from another; or why it leads nowhere.
pub uninterp spec fn url_reference(base: Seq<char>, reference: Seq<char>) -> Result<
    Seq<char>,
    Seq<char>,
>;

/// A URL in its parts.
#[derive(Debug, PartialEq, Eq)]
pub struct UrlParts {
    pub scheme: String,
    pub host: Option<String>,
    pub port: Option<u16>,
}

/// The text of an optional text.
pub open spec fn opt(s: Option<String>) -> Option<Seq<char>> {
    match s {
        None => None,
        Some(t) => Some(t@),
    }
}

/// `reqwest::Url::parse` with `scheme`, `host_str` and `port_or_known_default`:
/// the parts, or the parser's message, are a function of the text alone.
#[verifier::external_body]
pub(crate) fn parse_url(url: &str) -> (r: Result<UrlParts, String>)
    ensures
        match r {
            Ok(p) => url_parts(url@) == Ok::<(Seq<char>, Option<Seq<char>>, Option<u16>), Seq<char>>((p.scheme@, opt(p.host), p.port)),
            Err(m) => url_parts(url@) == Err::<(Seq<char>, Option<Seq<char>>, Option<u16>), Seq<char>>(m@),
        },
{
    let parsed = reqwest::Url::parse(url).map_err(|error| error.to_string())?;
    Ok(
        UrlParts {
            scheme: parsed.scheme().to_string(),
            host: parsed.host_str().map(|host| host.to_string()),
            port: parsed.port_or_known_default(),
        },
    )
}

/// `reqwest::Url::parse` and `join`: the URL that is reached, or the message, is
/// a function of the two texts alone.
#[verifier::external_body]
pub(crate) fn join_url(base: &str, reference: &str) -> (r: Result<String, String>)
    ensures
        match r {
            Ok(u) => url_reference(base@, reference@) == Ok::<Seq<char>, Seq<char>>(u@),
            Err(m) => url_reference(base@, reference@) == Err::<Seq<char>, Seq<char>>(m@),
        },
{
    let parsed = reqwest::Url::parse(base).map_err(|error| error.to_string())?;
    parsed.join(reference).map(|url| url.to_string()).map_err(|error| error.to_string())
}

/// A host without its brackets.
pub open spec fn unbracketed(s: Seq<char>) -> Seq<char>
    decreases s.len(),
{
    if s.len() > 0 && s[0] == '[' {
        unbracketed(s.drop_first())
    } else if s.len() > 0 && s.last() == ']' {
        unbracketed(s.drop_last())
    } else {
        s
    }
}

proof fn lemma_unbracketed(s: Seq<char>, a: int, b: int)
    requires
        0 <= a <= b <= s.len(),
        forall|j: int| 0 <= j < a ==> s[j] == '[',
        forall|j: int| b <= j < s.len() ==> s[j] == ']',
        a < b ==> s[a] != '[' && s[b - 1] != ']',
        a == b ==> b == s.len() || a < s.len(),
    ensures
        unbracketed(s) == s.subrange(a, b),
    decreases s.len(),
{
    if s.len() == 0 {
        assert(s.subrange(a, b) =~= s);
    } else if a > 0 {
        let t = s.drop_first();
        assert(s[0] == '[');
        lemma_unbracketed(t, a - 1, b - 1);
        assert(t.subrange(a - 1, b - 1) =~= s.subrange(a, b));
    } else if b < s.len() {
        let t = s.drop_last();
        assert(s.last() == ']');
        if s[0] == '[' {
            assert(a == b);
        }
        lemma_unbracketed(t, a, b);
        assert(t.subrange(a, b) =~= s.subrange(a, b));
    } else {
        assert(s.subrange(a, b) =~= s);
    }
}

/// The host as an address is written, without brackets.
pub fn bare_host(host: &str) -> (r: String)
    ensures
        r@ == unbracketed(host@),
{
    let v = text::chars_of(host);
    let mut a: usize = 0;
    while a < v.len() && v[a] == '['
        invariant
            a <= v.len(),
            forall|j: int| 0 <= j < a ==> v@[j] == '[',
        decreases v.len() - a,
    {
        a += 1;
    }
    let mut b: usize = v.len();
    while b > a && v[b - 1] == ']'
        invariant
            a <= b <= v.len(),
            forall|j: int| b <= j < v.len() ==> v@[j] == ']',
            a < v.len() ==> v@[a as int] != '[',
        decreases b,
    {
        b -= 1;
    }
    proof {
        lemma_unbracketed(v@, a as int, b as int);
    }
    text::string_of_range(&v, a, b)
}

/// Whether a host name is one of the machine's own network.
pub open spec fn local_name(host: Seq<char>) -> bool {
    let lower = text::ascii_lowercase(host);
    lower == "localhost"@ || text::ends(lower, ".localhost"@) || text::ends(lower, ".local"@)
}

/// Why a location may not be fetched from, if it may not. `literal` is the
/// address that the host is written as, if it is one.
pub open spec fn location_fault(
    scheme: Seq<char>,
    host: Option<Seq<char>>,
    literal: Option<IpAddress>,
) -> Option<Seq<char>> {
    if scheme != "https"@ && scheme != "http"@ {
        Some("不允许的下载协议: "@ + scheme)
    } else {
        match host {
            None => Some("下载 URL 缺少主机名"@),
            Some(h) => if local_name(h) || (literal matches Some(ip) && !public_ip(ip)) {
                Some("拒绝下载内部/保留地址: "@ + h)
            } else {
                None
            },
        }
    }
}

/// Refuses a location that may not be fetched from.
pub fn validate_download_url(parts: &UrlParts, literal: Option<IpAddress>) -> (r: Result<(), String>)
    ensures
        match (r, location_fault(parts.scheme@, opt(parts.host), literal)) {
            (Ok(_), None) => true,
            (Err(m), Some(e)) => m@ == e,
            _ => false,
        },
{
    let scheme = parts.scheme.as_str();
    if !text::same(scheme, "https") && !text::same(scheme, "http") {
        return Err(router::joined("不允许的下载协议: ", scheme));
    }
    match &parts.host {
        None => Err(text::copy("下载 URL 缺少主机名")),
        Some(host) => {
            let lower = text::to_ascii_lowercase(host.as_str());
            if text::same(lower.as_str(), "localhost") || text::ends_with(
                lower.as_str(),
                ".localhost",
            ) || text::ends_with(lower.as_str(), ".local") {
                return Err(router::joined("拒绝下载内部/保留地址: ", host.as_str()));
            }
            match literal {
                Some(ip) => {
                    if !is_public_download_ip(ip) {
                        return Err(
                            router::joined("拒绝下载内部/保留地址: ", host.as_str()),
                        );
                    }
                },
                None => {},
            }
            Ok(())
        },
    }
}

// ---------------------------------------------------------------------------
// Hops
// ---------------------------------------------------------------------------

/// One request of a fetch: where it goes, and how many redirects led there.
#[derive(Debug, PartialEq, Eq)]
pub struct Hop {
    pub url: String,
    pub redirect_count: usize,
}

impl Hop {
    /// No more redirects than are followed.
    pub open spec fn wf(self) -> bool {
        self.redirect_count <= MAX_MEDIA_REDIRECTS
    }
}

/// Begins a fetch.
pub fn first_hop(initial_url: &str) -> (r: Result<Hop, String>)
    ensures
        match url_parts(initial_url@) {
            Ok(_) => r matches Ok(hop) && hop.url@ == initial_url@ && hop.redirect_count == 0,
            Err(e) => r matches Err(m) && m@ == "无效的下载 URL: "@ + e,
        },
{
    match parse_url(initial_url) {
        Ok(_) => Ok(Hop { url: text::copy(initial_url), redirect_count: 0 }),
        Err(e) => Err(router::joined("无效的下载 URL: ", e.as_str())),
    }
}

/// The parts of a hop's URL.
pub fn hop_parts(hop: &Hop) -> (r: Result<UrlParts, String>)
    ensures
        match url_parts(hop.url@) {
            Ok(p) => r matches Ok(parts) && parts.scheme@ == p.0 && opt(parts.host) == p.1
                && parts.port == p.2,
            Err(e) => r matches Err(m) && m@ == "无效的下载 URL: "@ + e,
        },
{
    match parse_url(hop.url.as_str()) {
        Ok(parts) => Ok(parts),
        Err(e) => Err(router::joined("无效的下载 URL: ", e.as_str())),
    }
}

/// Where a hop connects to.
#[derive(Debug, PartialEq, Eq)]
pub struct DownloadTarget {
    pub host: String,
    pub port: u16,
}

/// Checks a hop's location and says where it connects to.
pub fn download_target(parts: &UrlParts, literal: Option<IpAddress>) -> (r: Result<
    DownloadTarget,
    String,
>)
    ensures
        match location_fault(parts.scheme@, opt(parts.host), literal) {
            Some(e) => r matches Err(m) && m@ == e,
            None => match parts.port {
                Some(port) => r matches Ok(t) && Some(t.host@) == opt(parts.host) && t.port == port,
                None => r matches Err(m) && m@ == "下载 URL 缺少有效端口"@,
            },
        },
{
    match validate_download_url(parts, literal) {
        Err(m) => Err(m),
        Ok(_) => match &parts.host {
            None => Err(text::copy("下载 URL 缺少主机名")),
            Some(host) => match parts.port {
                Some(port) => Ok(DownloadTarget { host: text::copy(host.as_str()), port }),
                None => Err(text::copy("下载 URL 缺少有效端口")),
            },
        },
    }
}

/// Where a connection goes.
#[derive(Debug, Clone, Copy, PartialEq, Eq)]
pub struct Endpoint {
    pub ip: IpAddress,
    pub port: u16,
}

/// An address that a host resolved to: where it is, its IP address as a text, and
/// whether the policy allows it.
#[derive(Debug, PartialEq, Eq)]
pub struct ResolvedAddress {
    pub at: Endpoint,
    pub shown: String,
    pub allowed: bool,
}

/// Whether an address is the first that is not allowed.
pub open spec fn first_forbidden(addresses: Seq<ResolvedAddress>, i: int) -> bool {
    0 <= i < addresses.len() && !addresses[i].allowed && forall|j: int|
        0 <= j < i ==> (#[trigger] addresses[j]).allowed
}

/// Refuses the whole hop where any address that the host resolved to is not
/// allowed.
pub fn check_addresses(host: &str, addresses: &Vec<ResolvedAddress>) -> (r: Result<(), String>)
    ensures
        match r {
            Ok(_) => forall|i: int| 0 <= i < addresses@.len() ==> (#[trigger] addresses@[i]).allowed,
            Err(m) => exists|i: int| #[trigger]
                first_forbidden(addresses@, i) && m@ == "拒绝下载内部/保留地址: "@ + host@
                    + " (resolved "@ + addresses@[i].shown@ + ")"@,
        },
{
    let mut i: usize = 0;
    while i < addresses.len()
        invariant
            i <= addresses.len(),
            forall|j: int| 0 <= j < i ==> (#[trigger] addresses@[j]).allowed,
        decreases addresses.len() - i,
    {
        if !addresses[i].allowed {
            let mut m = text::copy("拒绝下载内部/保留地址: ");
            m.append(host);
            m.append(" (resolved ");
            m.append(addresses[i].shown.as_str());
            m.append(")");
            assert(first_forbidden(addresses@, i as int));
            return Err(m);
        }
        i += 1;
    }
    Ok(())
}

/// The `Location` of a response.
#[derive(Debug, PartialEq, Eq)]
pub enum Location {
    Missing,
    NotText,
    Text(String),
}

/// What follows a response.
#[derive(Debug, PartialEq, Eq)]
pub enum HopOutcome {
    /// Another request.
    Follow(Hop),
    /// The body is to be read.
    Collect,
    /// The fetch has failed.
    Failed(String),
}

/// What follows a response with a status and a `Location`.
pub open spec fn hop_outcome(
    r: HopOutcome,
    hop: Hop,
    status: u16,
    status_text: Seq<char>,
    location: Location,
) -> bool {
    if 300 <= status < 400 {
        if hop.redirect_count == MAX_MEDIA_REDIRECTS {
            r matches HopOutcome::Failed(m) && m@
                == "媒体下载重定向次数过多，请重试或检查供应商返回地址。"@
        } else {
            match location {
                Location::Missing => r matches HopOutcome::Failed(m) && m@
                    == "媒体下载返回重定向，但缺少 Location 地址。可稍后重试。"@,
                Location::NotText => r matches HopOutcome::Failed(m) && m@
                    == "媒体下载重定向地址不是有效文本。可稍后重试。"@,
                Location::Text(to) => match url_reference(hop.url@, to@) {
                    Ok(url) => r matches HopOutcome::Follow(next) && next.url@ == url
                        && next.redirect_count == hop.redirect_count + 1,
                    Err(e) => r matches HopOutcome::Failed(m) && m@
                        == "媒体下载重定向地址无效: "@ + e,
                },
            }
        }
    } else if 200 <= status < 300 {
        r is Collect
    } else {
        r matches HopOutcome::Failed(m) && m@ == "媒体下载失败（HTTP "@ + status_text
            + "）。可稍后重试。"@
    }
}

/// Follows a redirect, once it is known where it leads.
pub fn follow(hop: &Hop, reached: Result<String, String>) -> (r: HopOutcome)
    requires
        hop.redirect_count < MAX_MEDIA_REDIRECTS,
    ensures
        match reached {
            Ok(url) => r == HopOutcome::Follow(
                Hop { url, redirect_count: (hop.redirect_count + 1) as usize },
            ),
            Err(e) => r matches HopOutcome::Failed(m) && m@ == "媒体下载重定向地址无效: "@
                + e@,
        },
{
    match reached {
        Ok(url) => HopOutcome::Follow(Hop { url, redirect_count: hop.redirect_count + 1 }),
        Err(e) => HopOutcome::Failed(
            router::joined("媒体下载重定向地址无效: ", e.as_str()),
        ),
    }
}

/// Decides what follows a response.
pub fn next_hop(hop: &Hop, status: u16, status_text: &str, location: &Location) -> (r: HopOutcome)
    requires
        hop.wf(),
    ensures
        hop_outcome(r, *hop, status, status_text@, *location),
        r matches HopOutcome::Follow(next) ==> next.wf(),
{
    if 300 <= status && status < 400 {
        if hop.redirect_count == MAX_MEDIA_REDIRECTS {
            return HopOutcome::Failed(
                text::copy("媒体下载重定向次数过多，请重试或检查供应商返回地址。"),
            );
        }
        return match location {
            Location::Missing => HopOutcome::Failed(
                text::copy("媒体下载返回重定向，但缺少 Location 地址。可稍后重试。"),
            ),
            Location::NotText => HopOutcome::Failed(
                text::copy("媒体下载重定向地址不是有效文本。可稍后重试。"),
            ),
            Location::Text(to) => follow(hop, join_url(hop.url.as_str(), to.as_str())),
        };
    }
    if 200 <= status && status < 300 {
        return HopOutcome::Collect;
    }
    let mut m = text::copy("媒体下载失败（HTTP ");
    m.append(status_text);
    m.append("）。可稍后重试。");
    HopOutcome::Failed(m)
}

// ---------------------------------------------------------------------------
// Bodies
// ---------------------------------------------------------------------------

/// The media type of a `Content-Type`, without its parameters.
pub open spec fn media_type(content_type: Seq<char>) -> Seq<char> {
    text::trim_of(content_type.take(text::index_of(content_type, ';')))
}

/// Why a response may not be read, if it may not.
pub open spec fn response_fault(
    content_type: Option<Seq<char>>,
    content_length: Option<u64>,
    kind: MediaKind,
) -> Option<Seq<char>> {
    match content_type {
        None => Some("媒体下载响应缺少 Content-Type 头部"@),
        Some(t) => if !text::begins(media_type(t), prefix_of(kind)) {
            Some(
                "媒体下载 Content-Type "@ + media_type(t) + " 不被接受（需要 "@
                    + prefix_of(kind) + "*）"@,
            )
        } else {
            match content_length {
                Some(n) => if n > MAX_MEDIA_BYTES {
                    Some(
                        "媒体下载 Content-Length "@ + text::decimal(n as nat)
                            + " 超过上限 "@ + text::decimal(MAX_MEDIA_BYTES as nat)
                            + " 字节"@,
                    )
                } else {
                    None
                },
                None => None,
            }
        },
    }
}

/// Refuses a response of another type, or of a declared size that is too large,
/// before its body is read.
pub fn check_response(
    content_type: &Option<String>,
    content_length: Option<u64>,
    kind: MediaKind,
) -> (r: Result<(), String>)
    ensures
        match (r, response_fault(opt(*content_type), content_length, kind)) {
            (Ok(_), None) => true,
            (Err(m), Some(e)) => m@ == e,
            _ => false,
        },
{
    match content_type {
        None => Err(text::copy("媒体下载响应缺少 Content-Type 头部")),
        Some(t) => {
            let chars = text::chars_of(t.as_str());
            let k = text::find_from(&chars, 0, ';');
            assert(t@.skip(0) =~= t@);
            assert(t@.subrange(0, k as int) =~= t@.take(k as int));
            let head = text::string_of_range(&chars, 0, k);
            let mime = text::trim(head.as_str());
            if !text::starts_with(mime.as_str(), kind.allowed_prefix()) {
                let mut m = text::copy("媒体下载 Content-Type ");
                m.append(mime.as_str());
                m.append(" 不被接受（需要 ");
                m.append(kind.allowed_prefix());
                m.append("*）");
                return Err(m);
            }
            match content_length {
                Some(n) => {
                    if n > MAX_MEDIA_BYTES {
                        let declared = text::decimal_of(n as u128);
                        let limit = text::decimal_of(MAX_MEDIA_BYTES as u128);
                        let mut m = text::copy("媒体下载 Content-Length ");
                        m.append(declared.as_str());
                        m.append(" 超过上限 ");
                        m.append(limit.as_str());
                        m.append(" 字节");
                        return Err(m);
                    }
                },
                None => {},
            }
            Ok(())
        },
    }
}

/// The body of a response, as far as it was read.
pub struct BodyCollector {
    collected: Vec<u8>,
}

impl BodyCollector {
    /// The bytes so far.
    pub closed spec fn bytes(&self) -> Seq<u8> {
        self.collected@
    }

    /// No more bytes than are allowed.
    pub open spec fn wf(&self) -> bool {
        self.bytes().len() <= MAX_MEDIA_BYTES
    }

    pub fn new() -> (r: BodyCollector)
        ensures
            r.wf(),
            r.bytes() == Seq::<u8>::empty(),
    {
        BodyCollector { collected: Vec::new() }
    }

    /// Adds a chunk, unless the body becomes too large.
    pub fn push(&mut self, chunk: &Vec<u8>) -> (r: Result<(), String>)
        requires
            old(self).wf(),
        ensures
            final(self).wf(),
            if chunk@.len() > MAX_MEDIA_BYTES {
                (r matches Err(m) && m@ == "媒体下载单个分块 "@ + text::decimal(
                    chunk@.len(),
                ) + " 字节超过上限 "@ + text::decimal(MAX_MEDIA_BYTES as nat))
                    && final(self).bytes() == old(self).bytes()
            } else if old(self).bytes().len() + chunk@.len() > MAX_MEDIA_BYTES {
                (r matches Err(m) && m@ == "媒体下载实际大小超过上限 "@
                    + text::decimal(MAX_MEDIA_BYTES as nat) + " 字节"@)
                    && final(self).bytes() == old(self).bytes()
            } else {
                r is Ok && final(self).bytes() == old(self).bytes() + chunk@
            },
    {
        let limit = text::decimal_of(MAX_MEDIA_BYTES as u128);
        let size = chunk.len() as u64;
        if size > MAX_MEDIA_BYTES {
            let shown = text::decimal_of(size as u128);
            let mut m = text::copy("媒体下载单个分块 ");
            m.append(shown.as_str());
            m.append(" 字节超过上限 ");
            m.append(limit.as_str());
            return Err(m);
        }
        let received = self.collected.len() as u64 + size;
        if received > MAX_MEDIA_BYTES {
            let mut m = text::copy("媒体下载实际大小超过上限 ");
            m.append(limit.as_str());
            m.append(" 字节");
            return Err(m);
        }
        let ghost before = self.collected@;
        let mut i: usize = 0;
        while i < chunk.len()
            invariant
                i <= chunk.len(),
                self.collected@ =~= before + chunk@.take(i as int),
            decreases chunk.len() - i,
        {
            self.collected.push(chunk[i]);
            i += 1;
        }
        assert(chunk@.take(chunk@.len() as int) =~= chunk@);
        Ok(())
    }

    /// The whole body.
    pub fn finish(self) -> (r: Vec<u8>)
        ensures
            r@ == self.bytes(),
    {
        self.collected
    }
}

/// Read as one number, an IPv4 address is public exactly where it lies in none of the reserved
/// networks: 0/8, 10/8, 100.64/10, 127/8, 169.254/16, 172.16/12, 192.0.0/24, 192.0.2/24, 192.88.99/24,
/// 192.168/16, 198.18/15, 198.51.100/24, 203.0.113/24 and 224/3.
pub proof fn reserved_networks_are_not_public(o: [u8; 4])
    ensures
        !public_ip(IpAddress::V4(o)) <==> ({
            let n = o@[0] * 16777216 + o@[1] * 65536 + o@[2] * 256 + o@[3];
            {
                ||| 0 <= n < 16777216
                ||| 167772160 <= n < 184549376
                ||| 1681915904 <= n < 1686110208
                ||| 2130706432 <= n < 2147483648
                ||| 2851995648 <= n < 2852061184
                ||| 2886729728 <= n < 2887778304
                ||| 3221225472 <= n < 3221225728
                ||| 3221225984 <= n < 3221226240
                ||| 3227017984 <= n < 3227018240
                ||| 3232235520 <= n < 3232301056
                ||| 3323068416 <= n < 3323199488
                ||| 3325256704 <= n < 3325256960
                ||| 3405803776 <= n < 3405804032
                ||| 3758096384 <= n < 4294967296
            }
        }),
{
}

/// An IPv6 address that stands for no IPv4 address is public exactly where it lies in 2000::/3 and
/// in none of its reserved networks: 2001::/32, 2001:2::/32, 2001:10::/27 upward, 2001:db8::/32,
/// 2002::/16 and 3ff0::/12.
pub proof fn public_networks_of_ipv6(s: [u16; 8])
    ensures
        (s@[0] == 0 && s@[1] == 0 && s@[2] == 0 && s@[3] == 0 && s@[4] == 0 && (s@[5] == 0 || s@[5]
            == 65535)) == stands_for_v4(s@),
        !stands_for_v4(s@) ==> (public_ip(IpAddress::V6(s)) <==> ({
            let n = s@[0] * 65536 + s@[1];
            &&& 0x2000_0000 <= n < 0x4000_0000
            &&& n != 0x2001_0000 && n != 0x2001_0002 && n != 0x2001_0db8
            &&& !(0x2001_0010 <= n < 0x2001_0030)
            &&& !(0x2002_0000 <= n < 0x2003_0000)
            &&& !(0x3ff0_0000 <= n < 0x4000_0000)
        })),
{
}

/// A host loses the opening brackets in front and the closing ones behind, nothing else.
pub proof fn hosts_lose_their_brackets_only(s: Seq<char>) -> (r: (int, int))
    ensures
        0 <= r.0 <= r.1 <= s.len(),
        unbracketed(s) == s.subrange(r.0, r.1),
        forall|i: int| 0 <= i < r.0 ==> #[trigger] s[i] == '[',
        forall|i: int| r.1 <= i < s.len() ==> #[trigger] s[i] == ']',
        r.0 < r.1 ==> s[r.0] != '[' && s[r.1 - 1] != ']',
    decreases s.len(),
{
    if s.len() > 0 && s[0] == '[' {
        let t = s.drop_first();
        let q = hosts_lose_their_brackets_only(t);
        assert(t.subrange(q.0, q.1) =~= s.subrange(q.0 + 1, q.1 + 1));
        assert forall|i: int| 0 <= i < q.0 + 1 implies #[trigger] s[i] == '[' by {
            if i > 0 {
                assert(t[i - 1] == '[');
            }
        }
        assert forall|i: int| q.1 + 1 <= i < s.len() implies #[trigger] s[i] == ']' by {
            assert(t[i - 1] == ']');
        }
        (q.0 + 1, q.1 + 1)
    } else if s.len() > 0 && s.last() == ']' {
        let t = s.drop_last();
        let q = hosts_lose_their_brackets_only(t);
        assert(t.subrange(q.0, q.1) =~= s.subrange(q.0, q.1));
        assert forall|i: int| 0 <= i < q.0 implies #[trigger] s[i] == '[' by {
            assert(t[i] == '[');
        }
        assert forall|i: int| q.1 <= i < s.len() implies #[trigger] s[i] == ']' by {
            if i < t.len() {
                assert(t[i] == ']');
            }
        }
        q
    } else {
        assert(s.subrange(0, s.len() as int) =~= s);
        (0, s.len() as int)
    }
}

/// A download is let through where it is HTTP or HTTPS, names a host, the host is no local name and
/// an address that stands in its place is public; else the fault says which of these fails first.
pub proof fn downloads_are_from_public_hosts(
    scheme: Seq<char>,
    host: Option<Seq<char>>,
    literal: Option<IpAddress>,
)
    ensures
        location_fault(scheme, host, literal) is None <==> (scheme == "http"@ || scheme == "https"@)
            && host is Some && !({
            let h = text::ascii_lowercase(host->0);
            ||| h == "localhost"@
            ||| text::ends(h, ".localhost"@)
            ||| text::ends(h, ".local"@)
        }) && (literal is Some ==> public_ip(literal->0)),
        scheme != "http"@ && scheme != "https"@ ==> location_fault(scheme, host, literal) == Some(
            "不允许的下载协议: "@ + scheme,
        ),
        (scheme == "http"@ || scheme == "https"@) && host is None ==> location_fault(
            scheme,
            host,
            literal,
        ) == Some("下载 URL 缺少主机名"@),
        (scheme == "http"@ || scheme == "https"@) && host is Some && location_fault(
            scheme,
            host,
            literal,
        ) is Some ==> location_fault(scheme, host, literal) == Some(
            "拒绝下载内部/保留地址: "@ + host->0,
        ),
{
}

/// A body is collected exactly from a response of success; a redirect is followed exactly where it
/// names an address that leads somewhere and fewer than ten were followed before, and counts one
/// more.
pub proof fn redirects_are_followed_ten_times_at_most(
    r: HopOutcome,
    hop: Hop,
    status: u16,
    status_text: Seq<char>,
    location: Location,
)
    requires
        hop.wf(),
        hop_outcome(r, hop, status, status_text, location),
    ensures
        hop.redirect_count <= 10,
        r is Collect <==> 200 <= status <= 299,
        r is Follow <==> 300 <= status <= 399 && hop.redirect_count < 10 && location is Text
            && url_reference(hop.url@, location->Text_0@) is Ok,
        r is Follow ==> r->Follow_0.redirect_count == hop.redirect_count + 1 && url_reference(
            hop.url@,
            location->Text_0@,
        ) == Ok::<Seq<char>, Seq<char>>(r->Follow_0.url@),
        r is Failed && !(300 <= status <= 399) ==> r->Failed_0@ == "媒体下载失败（HTTP "@
            + status_text + "）。可稍后重试。"@,
        r is Failed && 300 <= status <= 399 && hop.redirect_count < 10 ==> r->Failed_0@ == (
        match location {
            Location::Missing => "媒体下载返回重定向，但缺少 Location 地址。可稍后重试。"@,
            Location::NotText => "媒体下载重定向地址不是有效文本。可稍后重试。"@,
            Location::Text(to) => "媒体下载重定向地址无效: "@ + url_reference(
                hop.url@,
                to@,
            )->Err_0,
        }),
        r is Failed && 300 <= status <= 399 && hop.redirect_count == 10 ==> r->Failed_0@
            == "媒体下载重定向次数过多，请重试或检查供应商返回地址。"@,
{
}

/// The media type of a content type is what stands before its first semicolon, without the white
/// space around it.
pub proof fn media_types_end_at_the_semicolon(t: Seq<char>, rest: Seq<char>)
    requires
        !t.contains(';'),
    ensures
        media_type(t) == text::trim_of(t),
        media_type(t + seq![';'] + rest) == text::trim_of(t),
{
    let s = t + seq![';'] + rest;
    text::lemma_index_of(t, ';');
    text::lemma_index_of(s, ';');
    let i = text::index_of(s, ';');
    if i < t.len() {
        assert(s[i] == t[i]);
        assert(t.contains(t[i]));
    }
    assert(s[t.len() as int] == ';');
    assert(s.take(t.len() as int) =~= t);
    let j = text::index_of(t, ';');
    if j < t.len() {
        assert(t.contains(t[j]));
    }
    assert(t.take(t.len() as int) =~= t);
}

/// A response is taken where its media type is of the kind that is fetched and it announces no more
/// than 64 MiB.
pub proof fn responses_are_of_their_kind(
    content_type: Option<Seq<char>>,
    content_length: Option<u64>,
    kind: MediaKind,
)
    ensures
        response_fault(content_type, content_length, kind) is None <==> content_type is Some
            && text::begins(
            media_type(content_type->0),
            if kind is Image { "image/"@ } else { "audio/"@ },
        ) && (content_length is Some ==> content_length->0 <= 64 * 1024 * 1024),
        content_type is None ==> response_fault(content_type, content_length, kind) == Some(
            "媒体下载响应缺少 Content-Type 头部"@,
        ),
{
}

/// The address that is refused is the first that is not allowed; an optional text is there with its
/// text or not at all.
pub proof fn the_first_forbidden_address_is_refused(
    addresses: Seq<ResolvedAddress>,
    i: int,
    s: Option<String>,
)
    ensures
        first_forbidden(addresses, i) <==> 0 <= i < addresses.len() && !addresses[i].allowed
            && forall|j: int| 0 <= j < i ==> (#[trigger] addresses[j]).allowed,
        s is None ==> opt(s) is None,
        s is Some ==> opt(s) == Some(s->0@),
        prefix_of(MediaKind::Image) == "image/"@,
        prefix_of(MediaKind::Audio) == "audio/"@,
{
}

} // verus!
