//! Fetching generated media: every hop is judged before it is connected to.
//!
//! The caller resolves names, asks the policy, sends requests and reads bodies; in
//! which order, to which addresses, and with what outcome is decided here.
use vstd::prelude::*;

use crate::agents::router;
use crate::ai::safe_media_fetch;
use crate::ai::safe_media_fetch::{
    BodyCollector, DownloadTarget, Endpoint, Hop, HopOutcome, IpAddress, Location, MediaKind,
    ResolvedAddress, MAX_MEDIA_BYTES, MAX_MEDIA_REDIRECTS,
};
use crate::text;

verus! {

broadcast use vstd::string::group_string_axioms;

// ---------------------------------------------------------------------------
// Pinned addresses
// ---------------------------------------------------------------------------

/// The number of an IP address among those of its family.
pub open spec fn ip_number(ip: IpAddress) -> int {
    match ip {
        IpAddress::V4(o) => ((o@[0] * 256 + o@[1]) * 256 + o@[2]) * 256 + o@[3],
        IpAddress::V6(s) => ((((((s@[0] * 65536 + s@[1]) * 65536 + s@[2]) * 65536 + s@[3]) * 65536
            + s@[4]) * 65536 + s@[5]) * 65536 + s@[6]) * 65536 + s@[7],
    }
}

/// Whether an endpoint comes before another: by family, address and port.
pub open spec fn lower(a: Endpoint, b: Endpoint) -> bool {
    if (a.ip is V4) != (b.ip is V4) {
        a.ip is V4
    } else if ip_number(a.ip) != ip_number(b.ip) {
        ip_number(a.ip) < ip_number(b.ip)
    } else {
        a.port < b.port
    }
}

/// Whether two endpoints are the same.
pub open spec fn same_endpoint(a: Endpoint, b: Endpoint) -> bool {
    !lower(a, b) && !lower(b, a)
}

/// Whether an endpoint is that of one of the addresses.
pub open spec fn resolved_to(addresses: Seq<ResolvedAddress>, e: Endpoint) -> bool {
    exists|i: int| 0 <= i < addresses.len() && same_endpoint(#[trigger] addresses[i].at, e)
}

/// Whether an endpoint is one of those listed.
pub open spec fn listed(pinned: Seq<Endpoint>, e: Endpoint) -> bool {
    exists|i: int| 0 <= i < pinned.len() && same_endpoint(#[trigger] pinned[i], e)
}

/// Whether a request is pinned to exactly the addresses that a host resolved to,
/// in their order, each once.
pub open spec fn pins(pinned: Seq<Endpoint>, addresses: Seq<ResolvedAddress>) -> bool {
    &&& forall|i: int, j: int|
        0 <= i < j < pinned.len() ==> lower(#[trigger] pinned[i], #[trigger] pinned[j])
    &&& forall|e: Endpoint| #[trigger] listed(pinned, e) <==> resolved_to(addresses, e)
}

fn number_ip(ip: IpAddress) -> (r: u128)
    ensures
        r == ip_number(ip),
{
    match ip {
        IpAddress::V4(o) => ((o[0] as u128 * 256 + o[1] as u128) * 256 + o[2] as u128) * 256
            + o[3] as u128,
        IpAddress::V6(s) => {
            let a: u128 = (s[0] as u128 * 65536 + s[1] as u128) * 65536 + s[2] as u128;
            let b: u128 = (a * 65536 + s[3] as u128) * 65536 + s[4] as u128;
            let c: u128 = (b * 65536 + s[5] as u128) * 65536 + s[6] as u128;
            c * 65536 + s[7] as u128
        },
    }
}

fn is_lower(a: Endpoint, b: Endpoint) -> (r: bool)
    ensures
        r == lower(a, b),
{
    let first = match a.ip {
        IpAddress::V4(_) => true,
        IpAddress::V6(_) => false,
    };
    let second = match b.ip {
        IpAddress::V4(_) => true,
        IpAddress::V6(_) => false,
    };
    if first != second {
        return first;
    }
    let x = number_ip(a.ip);
    let y = number_ip(b.ip);
    if x != y {
        x < y
    } else {
        a.port < b.port
    }
}

fn pin_one(pinned: &mut Vec<Endpoint>, e: Endpoint)
    requires
        forall|i: int, j: int|
            0 <= i < j < old(pinned)@.len() ==> lower(
                #[trigger] old(pinned)@[i],
                #[trigger] old(pinned)@[j],
            ),
    ensures
        forall|i: int, j: int|
            0 <= i < j < final(pinned)@.len() ==> lower(
                #[trigger] final(pinned)@[i],
                #[trigger] final(pinned)@[j],
            ),
        forall|x: Endpoint| #[trigger]
            listed(final(pinned)@, x) <==> listed(old(pinned)@, x) || same_endpoint(e, x),
{
    let ghost before = pinned@;
    let mut k: usize = 0;
    while k < pinned.len() && is_lower(pinned[k], e)
        invariant
            k <= pinned.len(),
            pinned@ == before,
            forall|j: int| 0 <= j < k ==> lower(#[trigger] before[j], e),
        decreases pinned.len() - k,
    {
        k += 1;
    }
    if k < pinned.len() && !is_lower(e, pinned[k]) {
        assert(same_endpoint(before[k as int], e));
        assert forall|x: Endpoint| same_endpoint(e, x) implies #[trigger] listed(before, x) by {
            assert(same_endpoint(before[k as int], x));
        }
        return;
    }
    pinned.insert(k, e);
    let ghost after = pinned@;
    proof {
        assert forall|i: int, j: int| 0 <= i < j < after.len() implies lower(
            #[trigger] after[i],
            #[trigger] after[j],
        ) by {
            if j == k {
                assert(after[i] == before[i]);
            } else if i == k {
                assert(after[j] == before[j - 1]);
                if j - 1 > k {
                    assert(lower(before[k as int], before[j - 1]));
                }
            } else {
                let a = if i < k {
                    i
                } else {
                    i - 1
                };
                let b = if j < k {
                    j
                } else {
                    j - 1
                };
                assert(after[i] == before[a] && after[j] == before[b]);
            }
        }
        assert forall|x: Endpoint| #[trigger] listed(after, x) <==> listed(before, x)
            || same_endpoint(e, x) by {
            if listed(after, x) {
                let i = choose|i: int| 0 <= i < after.len() && same_endpoint(#[trigger] after[i], x);
                if i < k {
                    assert(before[i] == after[i]);
                } else if i > k {
                    assert(before[i - 1] == after[i]);
                }
            }
            if listed(before, x) {
                let i = choose|i: int|
                    0 <= i < before.len() && same_endpoint(#[trigger] before[i], x);
                if i < k {
                    assert(after[i] == before[i]);
                } else {
                    assert(after[i + 1] == before[i]);
                }
            }
            if same_endpoint(e, x) {
                assert(after[k as int] == e);
            }
        }
    }
}

/// The endpoints that a request is pinned to.
pub fn pin(addresses: &Vec<ResolvedAddress>) -> (r: Vec<Endpoint>)
    ensures
        pins(r@, addresses@),
{
    let mut pinned: Vec<Endpoint> = Vec::new();
    let mut i: usize = 0;
    assert(forall|e: Endpoint| #[trigger]
        listed(pinned@, e) <==> resolved_to(addresses@.take(0), e));
    while i < addresses.len()
        invariant
            i <= addresses.len(),
            pins(pinned@, addresses@.take(i as int)),
        decreases addresses.len() - i,
    {
        let ghost before = pinned@;
        let ghost some = addresses@.take(i as int);
        let ghost more = addresses@.take(i + 1);
        pin_one(&mut pinned, addresses[i].at);
        proof {
            assert forall|e: Endpoint| #[trigger] listed(pinned@, e) <==> resolved_to(more, e) by {
                assert(listed(before, e) <==> resolved_to(some, e));
                if resolved_to(some, e) {
                    let j = choose|j: int|
                        0 <= j < some.len() && same_endpoint(#[trigger] some[j].at, e);
                    assert(more[j] == some[j]);
                }
                if resolved_to(more, e) {
                    let j = choose|j: int|
                        0 <= j < more.len() && same_endpoint(#[trigger] more[j].at, e);
                    if j < i {
                        assert(some[j] == more[j]);
                    }
                }
                if same_endpoint(addresses@[i as int].at, e) {
                    assert(more[i as int].at == addresses@[i as int].at);
                }
            }
        }
        i += 1;
    }
    assert(addresses@.take(addresses@.len() as int) =~= addresses@);
    pinned
}

// ---------------------------------------------------------------------------
// The fetch
// ---------------------------------------------------------------------------

/// What a fetch waits for.
pub enum FetchPhase {
    /// Whether the host of this hop is written as an address is to be found out.
    Looking(Hop),
    /// The host is a name: it is to be resolved, and the policy asked of every
    /// address.
    Resolving(Hop, DownloadTarget),
    /// The host is this address: the policy is to be asked of it.
    Asking(Hop, DownloadTarget, IpAddress),
    /// The request is to be sent; where the host is a name, to these endpoints
    /// only.
    Sending(Hop, DownloadTarget, Option<Vec<Endpoint>>),
    /// The next part of the body is to be read.
    Collecting(BodyCollector),
    Done(Result<Vec<u8>, String>),
}

/// The head of a response.
#[derive(Debug, PartialEq, Eq)]
pub struct Answer {
    pub status: u16,
    pub status_text: String,
    pub location: Location,
    pub content_type: Option<String>,
    pub content_length: Option<u64>,
}

/// Why a request was not answered.
#[derive(Debug, PartialEq, Eq)]
pub enum SendFault {
    /// No client could be made for it.
    NoClient(String),
    /// It was sent, and failed.
    Failed(String),
}

/// What the caller reports.
#[derive(Debug, PartialEq, Eq)]
pub enum FetchEvent {
    /// The address that the host is written as, if it is one.
    Written(Option<IpAddress>),
    Resolved(Result<Vec<ResolvedAddress>, String>),
    /// What the policy says of an address: how the address is shown, and whether
    /// it is allowed.
    Asked(String, bool),
    Answered(Result<Answer, SendFault>),
    /// A part of the body, or its end.
    Chunk(Result<Option<Vec<u8>>, String>),
    /// The time for the whole fetch is over; the time as it is shown.
    Expired(String),
}

impl FetchPhase {
    /// No more redirects than are followed, and no more bytes than are allowed.
    pub open spec fn wf(self) -> bool {
        match self {
            FetchPhase::Looking(hop) => hop.wf(),
            FetchPhase::Resolving(hop, _) => hop.wf(),
            FetchPhase::Asking(hop, _, _) => hop.wf(),
            FetchPhase::Sending(hop, _, _) => hop.wf(),
            FetchPhase::Collecting(body) => body.wf(),
            FetchPhase::Done(_) => true,
        }
    }

    /// Whether the fetch has failed with this message.
    pub open spec fn failed(self, m: Seq<char>) -> bool {
        self matches FetchPhase::Done(Err(e)) && e@ == m
    }
}

/// The message for an address that is not allowed.
pub open spec fn forbidden(host: Seq<char>, shown: Seq<char>) -> Seq<char> {
    "拒绝下载内部/保留地址: "@ + host + " (resolved "@ + shown + ")"@
}

/// Whether every address is allowed.
pub open spec fn all_allowed(addresses: Seq<ResolvedAddress>) -> bool {
    forall|i: int| 0 <= i < addresses.len() ==> (#[trigger] addresses[i]).allowed
}

/// Whether a fetch that has failed names the first address that is not allowed.
pub open spec fn refused(after: FetchPhase, host: Seq<char>, addresses: Seq<ResolvedAddress>) -> bool {
    exists|i: int| #[trigger]
        safe_media_fetch::first_forbidden(addresses, i) && after.failed(
            forbidden(host, addresses[i].shown@),
        )
}

/// What follows when it is known whether a host is written as an address.
pub open spec fn looks(hop: Hop, literal: Option<IpAddress>, after: FetchPhase) -> bool {
    match safe_media_fetch::url_parts(hop.url@) {
        Err(e) => after.failed("无效的下载 URL: "@ + e),
        Ok((scheme, host, port)) => match safe_media_fetch::location_fault(scheme, host, literal) {
            Some(e) => after.failed(e),
            None => match port {
                None => after.failed("下载 URL 缺少有效端口"@),
                Some(port) => match literal {
                    Some(ip) => after matches FetchPhase::Asking(h, target, a) && h == hop && a
                        == ip && Some(target.host@) == host && target.port == port,
                    None => after matches FetchPhase::Resolving(h, target) && h == hop && Some(
                        target.host@,
                    ) == host && target.port == port,
                },
            },
        },
    }
}

/// What follows the head of a response.
pub open spec fn answers(kind: MediaKind, hop: Hop, answer: Answer, after: FetchPhase) -> bool {
    exists|outcome: HopOutcome| #[trigger]
        safe_media_fetch::hop_outcome(
            outcome,
            hop,
            answer.status,
            answer.status_text@,
            answer.location,
        ) && match outcome {
            HopOutcome::Follow(next) => after == FetchPhase::Looking(next),
            HopOutcome::Failed(m) => after.failed(m@),
            HopOutcome::Collect => match safe_media_fetch::response_fault(
                safe_media_fetch::opt(answer.content_type),
                answer.content_length,
                kind,
            ) {
                Some(m) => after.failed(m),
                None => after matches FetchPhase::Collecting(body) && body.bytes().len() == 0,
            },
        }
}

/// What follows a part of a body.
pub open spec fn collects(body: BodyCollector, chunk: Option<Vec<u8>>, after: FetchPhase) -> bool {
    match chunk {
        None => after matches FetchPhase::Done(Ok(bytes)) && bytes@ == body.bytes(),
        Some(more) => if more@.len() > MAX_MEDIA_BYTES {
            after.failed(
                "媒体下载单个分块 "@ + text::decimal(more@.len()) + " 字节超过上限 "@
                    + text::decimal(MAX_MEDIA_BYTES as nat),
            )
        } else if body.bytes().len() + more@.len() > MAX_MEDIA_BYTES {
            after.failed(
                "媒体下载实际大小超过上限 "@ + text::decimal(MAX_MEDIA_BYTES as nat)
                    + " 字节"@,
            )
        } else {
            after matches FetchPhase::Collecting(next) && next.bytes() == body.bytes() + more@
        },
    }
}

/// Whether a fetch goes over into another phase on what the caller reports. A
/// request is sent only once every address of its host is allowed, and to no other
/// address.
pub open spec fn fetch_moves(
    kind: MediaKind,
    before: FetchPhase,
    event: FetchEvent,
    after: FetchPhase,
) -> bool {
    match (before, event) {
        (FetchPhase::Done(_), _) => after == before,
        (_, FetchEvent::Expired(shown)) => after.failed(
            "媒体下载超过总时限 "@ + shown@ + "（涵盖 DNS、连接、重定向和响应体）。"@,
        ),
        (FetchPhase::Looking(hop), FetchEvent::Written(literal)) => looks(hop, literal, after),
        (FetchPhase::Resolving(_, _), FetchEvent::Resolved(Err(m))) => after.failed(m@),
        (FetchPhase::Resolving(hop, target), FetchEvent::Resolved(Ok(addresses))) => {
            if all_allowed(addresses@) {
                after matches FetchPhase::Sending(h, t, Some(pinned)) && h == hop && t == target
                    && pins(pinned@, addresses@)
            } else {
                refused(after, target.host@, addresses@)
            }
        },
        (FetchPhase::Asking(hop, target, _), FetchEvent::Asked(shown, allowed)) => if allowed {
            after == FetchPhase::Sending(hop, target, None)
        } else {
            after.failed(forbidden(target.host@, shown@))
        },
        (FetchPhase::Sending(_, _, _), FetchEvent::Answered(Err(SendFault::NoClient(m)))) => {
            after.failed("创建安全下载客户端失败: "@ + m@)
        },
        (FetchPhase::Sending(_, _, _), FetchEvent::Answered(Err(SendFault::Failed(m)))) => {
            after.failed("下载生成媒体失败: "@ + m@ + "。可稍后重试。"@)
        },
        (FetchPhase::Sending(hop, _, _), FetchEvent::Answered(Ok(answer))) => answers(
            kind,
            hop,
            answer,
            after,
        ),
        (FetchPhase::Collecting(_), FetchEvent::Chunk(Err(m))) => after.failed(
            "读取生成媒体失败: "@ + m@ + "。可稍后重试。"@,
        ),
        (FetchPhase::Collecting(body), FetchEvent::Chunk(Ok(chunk))) => collects(
            body,
            chunk,
            after,
        ),
        _ => after == before,
    }
}

/// Begins a fetch.
pub fn begin_fetch(initial_url: &str) -> (r: FetchPhase)
    ensures
        match safe_media_fetch::url_parts(initial_url@) {
            Ok(_) => r matches FetchPhase::Looking(hop) && hop.url@ == initial_url@
                && hop.redirect_count == 0,
            Err(e) => r.failed("无效的下载 URL: "@ + e),
        },
        r.wf(),
{
    match safe_media_fetch::first_hop(initial_url) {
        Ok(hop) => FetchPhase::Looking(hop),
        Err(m) => FetchPhase::Done(Err(m)),
    }
}

fn look(hop: Hop, literal: Option<IpAddress>) -> (r: FetchPhase)
    requires
        hop.wf(),
    ensures
        looks(hop, literal, r),
        r.wf(),
{
    let parts = match safe_media_fetch::hop_parts(&hop) {
        Ok(parts) => parts,
        Err(m) => {
            return FetchPhase::Done(Err(m));
        },
    };
    match safe_media_fetch::download_target(&parts, literal) {
        Err(m) => FetchPhase::Done(Err(m)),
        Ok(target) => match literal {
            Some(ip) => FetchPhase::Asking(hop, target, ip),
            None => FetchPhase::Resolving(hop, target),
        },
    }
}

fn judge(hop: Hop, target: DownloadTarget, addresses: Vec<ResolvedAddress>) -> (r: FetchPhase)
    requires
        hop.wf(),
    ensures
        if all_allowed(addresses@) {
            r matches FetchPhase::Sending(h, t, Some(pinned)) && h == hop && t == target && pins(
                pinned@,
                addresses@,
            )
        } else {
            refused(r, target.host@, addresses@)
        },
        r.wf(),
{
    match safe_media_fetch::check_addresses(target.host.as_str(), &addresses) {
        Ok(_) => {
            let pinned = pin(&addresses);
            FetchPhase::Sending(hop, target, Some(pinned))
        },
        Err(m) => {
            proof {
                let i = choose|i: int| #[trigger]
                    safe_media_fetch::first_forbidden(addresses@, i) && m@ == forbidden(
                        target.host@,
                        addresses@[i].shown@,
                    );
                assert(!addresses@[i].allowed);
                assert(safe_media_fetch::first_forbidden(addresses@, i));
            }
            FetchPhase::Done(Err(m))
        },
    }
}

fn take_answer(kind: MediaKind, hop: Hop, answer: Answer) -> (r: FetchPhase)
    requires
        hop.wf(),
    ensures
        answers(kind, hop, answer, r),
        r.wf(),
{
    let outcome = safe_media_fetch::next_hop(
        &hop,
        answer.status,
        answer.status_text.as_str(),
        &answer.location,
    );
    let ghost seen = outcome;
    assert(safe_media_fetch::hop_outcome(
        seen,
        hop,
        answer.status,
        answer.status_text@,
        answer.location,
    ));
    match outcome {
        HopOutcome::Follow(next) => FetchPhase::Looking(next),
        HopOutcome::Failed(m) => FetchPhase::Done(Err(m)),
        HopOutcome::Collect => match safe_media_fetch::check_response(
            &answer.content_type,
            answer.content_length,
            kind,
        ) {
            Ok(_) => FetchPhase::Collecting(BodyCollector::new()),
            Err(m) => FetchPhase::Done(Err(m)),
        },
    }
}

fn collect(body: BodyCollector, chunk: Option<Vec<u8>>) -> (r: FetchPhase)
    requires
        body.wf(),
    ensures
        collects(body, chunk, r),
        r.wf(),
{
    match chunk {
        None => FetchPhase::Done(Ok(body.finish())),
        Some(more) => {
            let mut body = body;
            match body.push(&more) {
                Ok(_) => FetchPhase::Collecting(body),
                Err(m) => FetchPhase::Done(Err(m)),
            }
        },
    }
}

fn wrapped(head: &str, m: &str, tail: &str) -> (r: FetchPhase)
    ensures
        r.failed(head@ + m@ + tail@),
        r.wf(),
{
    let mut s = router::joined(head, m);
    s.append(tail);
    FetchPhase::Done(Err(s))
}

/// Takes a fetch one step further.
pub fn fetch_media(kind: MediaKind, phase: FetchPhase, event: FetchEvent) -> (r: FetchPhase)
    requires
        phase.wf(),
    ensures
        fetch_moves(kind, phase, event, r),
        r.wf(),
{
    match phase {
        FetchPhase::Done(r) => FetchPhase::Done(r),
        phase => match event {
            FetchEvent::Expired(shown) => wrapped(
                "媒体下载超过总时限 ",
                shown.as_str(),
                "（涵盖 DNS、连接、重定向和响应体）。",
            ),
            FetchEvent::Written(literal) => match phase {
                FetchPhase::Looking(hop) => look(hop, literal),
                phase => phase,
            },
            FetchEvent::Resolved(found) => match phase {
                FetchPhase::Resolving(hop, target) => match found {
                    Ok(addresses) => judge(hop, target, addresses),
                    Err(m) => FetchPhase::Done(Err(m)),
                },
                phase => phase,
            },
            FetchEvent::Asked(shown, allowed) => match phase {
                FetchPhase::Asking(hop, target, ip) => if allowed {
                    FetchPhase::Sending(hop, target, None)
                } else {
                    let mut m = router::joined(
                        "拒绝下载内部/保留地址: ",
                        target.host.as_str(),
                    );
                    m.append(" (resolved ");
                    m.append(shown.as_str());
                    m.append(")");
                    FetchPhase::Done(Err(m))
                },
                phase => phase,
            },
            FetchEvent::Answered(result) => match phase {
                FetchPhase::Sending(hop, target, pinned) => match result {
                    Ok(answer) => take_answer(kind, hop, answer),
                    Err(SendFault::NoClient(m)) => FetchPhase::Done(
                        Err(router::joined("创建安全下载客户端失败: ", m.as_str())),
                    ),
                    Err(SendFault::Failed(m)) => wrapped(
                        "下载生成媒体失败: ",
                        m.as_str(),
                        "。可稍后重试。",
                    ),
                },
                phase => phase,
            },
            FetchEvent::Chunk(read) => match phase {
                FetchPhase::Collecting(body) => match read {
                    Ok(chunk) => collect(body, chunk),
                    Err(m) => wrapped(
                        "读取生成媒体失败: ",
                        m.as_str(),
                        "。可稍后重试。",
                    ),
                },
                phase => phase,
            },
        },
    }
}

// ---------------------------------------------------------------------------
// Laws
// ---------------------------------------------------------------------------

/// A course of a fetch: its phases, and what was reported between them.
pub open spec fn fetch_course(
    kind: MediaKind,
    phases: Seq<FetchPhase>,
    events: Seq<FetchEvent>,
) -> bool {
    &&& phases.len() == events.len() + 1
    &&& phases[0] matches FetchPhase::Looking(hop) && hop.redirect_count == 0
    &&& forall|k: int|
        0 <= k < events.len() ==> fetch_moves(kind, phases[k], #[trigger] events[k], phases[k + 1])
}

/// Whether what was reported last allows a request: every address that the host
/// resolved to is allowed and the request is pinned to them, or the host is itself
/// an address that is allowed.
pub open spec fn cleared(before: FetchPhase, event: FetchEvent, after: FetchPhase) -> bool {
    match (before, event) {
        (FetchPhase::Resolving(_, _), FetchEvent::Resolved(Ok(addresses))) => {
            &&& all_allowed(addresses@)
            &&& after matches FetchPhase::Sending(_, _, Some(pinned)) && pins(
                pinned@,
                addresses@,
            )
        },
        (FetchPhase::Asking(_, _, _), FetchEvent::Asked(_, allowed)) => {
            &&& allowed
            &&& after matches FetchPhase::Sending(_, _, None)
        },
        _ => false,
    }
}

/// No request is sent before its addresses are cleared: a fetch comes to send one
/// only on a report by which every address of the host is allowed, and then to no
/// other address.
pub proof fn requests_go_to_allowed_addresses(
    kind: MediaKind,
    phases: Seq<FetchPhase>,
    events: Seq<FetchEvent>,
    k: int,
)
    requires
        fetch_course(kind, phases, events),
        0 <= k < events.len(),
        phases[k + 1] is Sending,
    ensures
        phases[k + 1] == phases[k] || cleared(phases[k], events[k], phases[k + 1]),
{
    assert(fetch_moves(kind, phases[k], events[k], phases[k + 1]));
}

proof fn lemma_fetch_over(
    kind: MediaKind,
    phases: Seq<FetchPhase>,
    events: Seq<FetchEvent>,
    k: int,
    m: int,
)
    requires
        fetch_course(kind, phases, events),
        0 <= k <= m < phases.len(),
        phases[k] is Done,
    ensures
        phases[m] == phases[k],
    decreases m - k,
{
    if k < m {
        assert(fetch_moves(kind, phases[k], events[k], phases[k + 1]));
        lemma_fetch_over(kind, phases, events, k + 1, m);
    }
}

/// One address that is not allowed ends the fetch, whatever the others are: it is
/// refused by its name, and nothing is sent from then on.
pub proof fn one_forbidden_address_ends_the_fetch(
    kind: MediaKind,
    phases: Seq<FetchPhase>,
    events: Seq<FetchEvent>,
    addresses: Vec<ResolvedAddress>,
    k: int,
    m: int,
)
    requires
        fetch_course(kind, phases, events),
        0 <= k < events.len(),
        phases[k] is Resolving,
        events[k] == FetchEvent::Resolved(Ok(addresses)),
        !all_allowed(addresses@),
        k < m < phases.len(),
    ensures
        refused(phases[m], phases[k]->Resolving_1.host@, addresses@),
        !(phases[m] is Sending),
{
    assert(fetch_moves(kind, phases[k], events[k], phases[k + 1]));
    lemma_fetch_over(kind, phases, events, k + 1, m);
}

/// How many requests were sent up to a phase: how often the fetch came to send
/// one.
pub open spec fn requests(phases: Seq<FetchPhase>, k: int) -> nat
    decreases k,
{
    if k <= 0 {
        0
    } else {
        requests(phases, k - 1) + (if phases[k] is Sending && !(phases[k - 1] is Sending) {
            1nat
        } else {
            0
        })
    }
}

proof fn lemma_requests(
    kind: MediaKind,
    phases: Seq<FetchPhase>,
    events: Seq<FetchEvent>,
    k: int,
)
    requires
        fetch_course(kind, phases, events),
        0 <= k < phases.len(),
    ensures
        match phases[k] {
            FetchPhase::Looking(hop) => hop.wf() && requests(phases, k) == hop.redirect_count,
            FetchPhase::Resolving(hop, _) => hop.wf() && requests(phases, k) == hop.redirect_count,
            FetchPhase::Asking(hop, _, _) => hop.wf() && requests(phases, k) == hop.redirect_count,
            FetchPhase::Sending(hop, _, _) => hop.wf() && requests(phases, k)
                == hop.redirect_count + 1,
            _ => requests(phases, k) <= MAX_MEDIA_REDIRECTS + 1,
        },
    decreases k,
{
    if k > 0 {
        lemma_requests(kind, phases, events, k - 1);
        assert(fetch_moves(kind, phases[k - 1], events[k - 1], phases[k]));
    }
}

/// A fetch sends no more requests than the redirects that it may follow, and one.
pub proof fn fetches_end(
    kind: MediaKind,
    phases: Seq<FetchPhase>,
    events: Seq<FetchEvent>,
    k: int,
)
    requires
        fetch_course(kind, phases, events),
        0 <= k < phases.len(),
    ensures
        requests(phases, k) <= MAX_MEDIA_REDIRECTS + 1,
{
    lemma_requests(kind, phases, events, k);
}

/// An address is ordered by its bytes, the first counting most.
pub proof fn addresses_are_read_as_numbers(o: [u8; 4], s: [u16; 8], t: [u16; 8])
    ensures
        ip_number(IpAddress::V4(o)) == o@[0] * 16777216 + o@[1] * 65536 + o@[2] * 256 + o@[3],
        ip_number(IpAddress::V6(s)) == ip_number(IpAddress::V6(t)) ==> forall|i: int|
            0 <= i < 8 ==> #[trigger] s@[i] == t@[i],
        forall|k: int|
            0 <= k < 8 && (forall|i: int| 0 <= i < k ==> #[trigger] s@[i] == t@[i])
                && #[trigger] s@[k] < #[trigger] t@[k] ==> ip_number(IpAddress::V6(s)) < ip_number(
                IpAddress::V6(t),
            ),
{
    assert forall|k: int|
        0 <= k < 8 && (forall|i: int| 0 <= i < k ==> #[trigger] s@[i] == t@[i])
            && #[trigger] s@[k] < #[trigger] t@[k] implies ip_number(IpAddress::V6(s)) < ip_number(
        IpAddress::V6(t),
    ) by {
        assert(k > 0 ==> s@[0] == t@[0]);
        assert(k > 1 ==> s@[1] == t@[1]);
        assert(k > 2 ==> s@[2] == t@[2]);
        assert(k > 3 ==> s@[3] == t@[3]);
        assert(k > 4 ==> s@[4] == t@[4]);
        assert(k > 5 ==> s@[5] == t@[5]);
        assert(k > 6 ==> s@[6] == t@[6]);
    }
}

/// The endpoints of a request are those that the host resolved to, each once: IPv4 before IPv6, the
/// lower address first, and of one address the lower port.
pub proof fn requests_are_pinned_to_what_was_resolved(
    pinned: Seq<Endpoint>,
    addresses: Seq<ResolvedAddress>,
)
    requires
        pins(pinned, addresses),
    ensures
        forall|i: int|
            0 <= i < addresses.len() ==> exists|j: int|
                0 <= j < pinned.len() && ((#[trigger] pinned[j]).ip is V4) == ((
                #[trigger] addresses[i]).at.ip is V4) && ip_number(pinned[j].ip) == ip_number(
                    addresses[i].at.ip,
                ) && pinned[j].port == addresses[i].at.port,
        forall|j: int|
            0 <= j < pinned.len() ==> exists|i: int|
                0 <= i < addresses.len() && ((#[trigger] pinned[j]).ip is V4) == ((
                #[trigger] addresses[i]).at.ip is V4) && ip_number(pinned[j].ip) == ip_number(
                    addresses[i].at.ip,
                ) && pinned[j].port == addresses[i].at.port,
        forall|i: int, j: int|
            0 <= i < j < pinned.len() ==> {
                let a = #[trigger] pinned[i];
                let b = #[trigger] pinned[j];
                ||| a.ip is V4 && b.ip is V6
                ||| (a.ip is V4) == (b.ip is V4) && ip_number(a.ip) < ip_number(b.ip)
                ||| (a.ip is V4) == (b.ip is V4) && ip_number(a.ip) == ip_number(b.ip) && a.port
                    < b.port
            },
{
    assert forall|i: int| 0 <= i < addresses.len() implies exists|j: int|
        0 <= j < pinned.len() && ((#[trigger] pinned[j]).ip is V4) == ((
        #[trigger] addresses[i]).at.ip is V4) && ip_number(pinned[j].ip) == ip_number(
            addresses[i].at.ip,
        ) && pinned[j].port == addresses[i].at.port by {
        let e = addresses[i].at;
        assert(same_endpoint(addresses[i].at, e));
        assert(resolved_to(addresses, e));
        assert(listed(pinned, e));
        let j = choose|j: int| 0 <= j < pinned.len() && same_endpoint(#[trigger] pinned[j], e);
        assert(same_endpoint(pinned[j], e));
    }
    assert forall|j: int| 0 <= j < pinned.len() implies exists|i: int|
        0 <= i < addresses.len() && ((#[trigger] pinned[j]).ip is V4) == ((
        #[trigger] addresses[i]).at.ip is V4) && ip_number(pinned[j].ip) == ip_number(
            addresses[i].at.ip,
        ) && pinned[j].port == addresses[i].at.port by {
        let e = pinned[j];
        assert(same_endpoint(pinned[j], e));
        assert(listed(pinned, e));
        assert(resolved_to(addresses, e));
        let i = choose|i: int|
            0 <= i < addresses.len() && same_endpoint(#[trigger] addresses[i].at, e);
        assert(same_endpoint(addresses[i].at, e));
        let a = addresses[i];
        assert((pinned[j].ip is V4) == (a.at.ip is V4));
    }
    assert forall|i: int, j: int| 0 <= i < j < pinned.len() implies {
        let a = #[trigger] pinned[i];
        let b = #[trigger] pinned[j];
        ||| a.ip is V4 && b.ip is V6
        ||| (a.ip is V4) == (b.ip is V4) && ip_number(a.ip) < ip_number(b.ip)
        ||| (a.ip is V4) == (b.ip is V4) && ip_number(a.ip) == ip_number(b.ip) && a.port < b.port
    } by {
        assert(lower(pinned[i], pinned[j]));
    }
}

/// A fetch sends a request only where every address that the host resolved to is allowed, and to
/// those addresses; or where the host is an address that is allowed. It is done with a body only at
/// the body's end, and the body is what was collected.
pub proof fn fetches_send_where_it_is_allowed(
    kind: MediaKind,
    before: FetchPhase,
    event: FetchEvent,
    after: FetchPhase,
)
    requires
        before.wf(),
        fetch_moves(kind, before, event, after),
    ensures
        after is Sending && !(before is Sending) ==> {
            ||| before is Resolving && event is Resolved && event->Resolved_0 is Ok && ({
                let addresses = event->Resolved_0->Ok_0@;
                &&& forall|i: int| 0 <= i < addresses.len() ==> (#[trigger] addresses[i]).allowed
                &&& after->Sending_2 is Some && pins(after->Sending_2->0@, addresses)
                &&& after->Sending_0 == before->Resolving_0
                &&& after->Sending_1 == before->Resolving_1
            })
            ||| before is Asking && event is Asked && event->Asked_1 && after
                == FetchPhase::Sending(before->Asking_0, before->Asking_1, None)
        },
        before is Resolving && event is Resolved && event->Resolved_0 is Ok && (forall|i: int|
            0 <= i < event->Resolved_0->Ok_0@.len() ==> (
            #[trigger] event->Resolved_0->Ok_0@[i]).allowed) ==> after is Sending,
        before is Resolving && event is Resolved && event->Resolved_0 is Ok ==> forall|i: int|
            0 <= i < event->Resolved_0->Ok_0@.len() && !(
            #[trigger] event->Resolved_0->Ok_0@[i]).allowed && (forall|j: int|
                0 <= j < i ==> (#[trigger] event->Resolved_0->Ok_0@[j]).allowed) ==> after is Done
                && after->Done_0 is Err && after->Done_0->Err_0@
                == "拒绝下载内部/保留地址: "@ + before->Resolving_1.host@ + " (resolved "@
                + event->Resolved_0->Ok_0@[i].shown@ + ")"@,
        before is Asking && event is Asked && event->Asked_1 ==> after is Sending,
        before is Asking && event is Asked && !event->Asked_1 ==> after is Done && after->Done_0
            is Err && after->Done_0->Err_0@ == "拒绝下载内部/保留地址: "@
            + before->Asking_1.host@ + " (resolved "@ + event->Asked_0@ + ")"@,
        after is Done && after->Done_0 is Ok && !(before is Done) ==> before is Collecting && event
            == FetchEvent::Chunk(Ok(None)) && after->Done_0->Ok_0@ == before->Collecting_0.bytes(),
        before is Collecting && event == FetchEvent::Chunk(Ok(None)) ==> after is Done
            && after->Done_0 is Ok,
        before is Collecting && event is Chunk && event->Chunk_0 is Ok && event->Chunk_0->Ok_0
            is Some ==> ({
            let old_bytes = before->Collecting_0.bytes();
            let more = event->Chunk_0->Ok_0->0@;
            &&& after is Collecting <==> old_bytes.len() + more.len() <= 64 * 1024 * 1024
            &&& after is Collecting ==> after->Collecting_0.bytes() == old_bytes + more
            &&& after is Collecting || after is Done && after->Done_0 is Err
        }),
        event is Expired && !(before is Done) ==> after is Done && after->Done_0 is Err
            && after->Done_0->Err_0@ == "媒体下载超过总时限 "@ + event->Expired_0@
            + "（涵盖 DNS、连接、重定向和响应体）。"@,
        before is Done ==> after == before,
{
    if before is Resolving && event is Resolved && event->Resolved_0 is Ok {
        let addresses = event->Resolved_0->Ok_0@;
        assert forall|i: int|
            0 <= i < addresses.len() && !(#[trigger] addresses[i]).allowed && (forall|j: int|
                0 <= j < i ==> (#[trigger] addresses[j]).allowed) implies after is Done
            && after->Done_0 is Err && after->Done_0->Err_0@ == "拒绝下载内部/保留地址: "@
            + before->Resolving_1.host@ + " (resolved "@ + addresses[i].shown@ + ")"@ by {
            assert(!all_allowed(addresses));
            assert(refused(after, before->Resolving_1.host@, addresses));
            let k = choose|k: int| #[trigger]
                safe_media_fetch::first_forbidden(addresses, k) && after.failed(
                    forbidden(before->Resolving_1.host@, addresses[k].shown@),
                );
            assert(safe_media_fetch::first_forbidden(addresses, k));
            if k < i {
                assert(addresses[k].allowed);
            } else if i < k {
                assert(addresses[i].allowed);
            }
        }
    }
}

/// An answer of success whose type and length are those of the kind begins an empty body, one that
/// is not fails, and a redirect that can be followed is looked up in turn.
pub proof fn answers_are_collected_or_followed(
    kind: MediaKind,
    before: FetchPhase,
    answer: Answer,
    after: FetchPhase,
)
    requires
        before.wf(),
        before is Sending,
        fetch_moves(kind, before, FetchEvent::Answered(Ok(answer)), after),
    ensures
        after is Collecting <==> 200 <= answer.status <= 299 && safe_media_fetch::response_fault(
            safe_media_fetch::opt(answer.content_type),
            answer.content_length,
            kind,
        ) is None,
        after is Collecting ==> after->Collecting_0.bytes() == Seq::<u8>::empty(),
        after is Looking <==> 300 <= answer.status <= 399 && before->Sending_0.redirect_count < 10
            && answer.location is Text && safe_media_fetch::url_reference(
            before->Sending_0.url@,
            answer.location->Text_0@,
        ) is Ok,
        after is Looking ==> after->Looking_0.redirect_count == before->Sending_0.redirect_count + 1
            && safe_media_fetch::url_reference(before->Sending_0.url@, answer.location->Text_0@)
            == Ok::<Seq<char>, Seq<char>>(after->Looking_0.url@),
        after is Collecting || after is Looking || after is Done && after->Done_0 is Err,
{
    let hop = before->Sending_0;
    let outcome = choose|outcome: HopOutcome| #[trigger]
        safe_media_fetch::hop_outcome(
            outcome,
            hop,
            answer.status,
            answer.status_text@,
            answer.location,
        ) && match outcome {
            HopOutcome::Follow(next) => after == FetchPhase::Looking(next),
            HopOutcome::Failed(m) => after.failed(m@),
            HopOutcome::Collect => match safe_media_fetch::response_fault(
                safe_media_fetch::opt(answer.content_type),
                answer.content_length,
                kind,
            ) {
                Some(m) => after.failed(m),
                None => after matches FetchPhase::Collecting(body) && body.bytes().len() == 0,
            },
        };
    safe_media_fetch::redirects_are_followed_ten_times_at_most(
        outcome,
        hop,
        answer.status,
        answer.status_text@,
        answer.location,
    );
    if after is Collecting {
        assert(after->Collecting_0.bytes() =~= Seq::<u8>::empty());
    }
}

} // verus!
