//! Recording exchanges, and replaying them.
use vstd::prelude::*;

use crate::agent_harness::cassette;
use crate::agent_harness::cassette::{Cassette, Interaction, InteractionKind, Request, Response};
use crate::agents::router::ModelCompletion;
use crate::story_plan;
use crate::text;

verus! {

broadcast use vstd::string::group_string_axioms;

/// Puts every exchange of a chat on a cassette.
pub struct RecordingGateway {
    pub api_key: String,
    pub cassette: Cassette,
}

/// Whether an interaction is that of an exchange: its texts without credentials,
/// and the hash of those.
pub open spec fn records(
    i: Interaction,
    seq: int,
    system: Seq<char>,
    user: Seq<char>,
    answer: ModelCompletion,
    api_key: Seq<char>,
    elapsed_ms: u64,
) -> bool {
    let kept_system = cassette::redacted(system, api_key);
    let kept_user = cassette::redacted(user, api_key);
    &&& i.seq == seq
    &&& i.kind == InteractionKind::Chat
    &&& i.request.system@ == kept_system
    &&& i.request.user@ == kept_user
    &&& i.request_hash@ == cassette::hash_of(kept_system, kept_user)
    &&& story_plan::opt_text(i.response.text) == Some(cassette::redacted(answer.0@, api_key))
    &&& story_plan::opt_text(i.response.model) == Some(answer.1@)
    &&& i.response.prompt_tokens == answer.2
    &&& i.response.completion_tokens == answer.3
    &&& i.response.blob is None
    &&& i.elapsed_ms == elapsed_ms
}

impl RecordingGateway {
    pub fn new(provider: String, model: String, api_key: String) -> (r: RecordingGateway)
        ensures
            r.api_key == api_key,
            r.cassette.version == cassette::CASSETTE_VERSION,
            r.cassette.provider == provider,
            r.cassette.model == model,
            r.cassette.interactions@.len() == 0,
    {
        RecordingGateway { api_key, cassette: Cassette::new(provider, model) }
    }

    /// Puts an exchange on the cassette. Only a turn that was answered is kept:
    /// an error, or no model at all, holds nothing to replay.
    pub fn record(
        &mut self,
        system: &str,
        user: &str,
        result: &Result<Option<ModelCompletion>, String>,
        elapsed_ms: u64,
    )
        ensures
            final(self).api_key == old(self).api_key,
            final(self).cassette.version == old(self).cassette.version,
            final(self).cassette.recorded_at_ms == old(self).cassette.recorded_at_ms,
            final(self).cassette.provider == old(self).cassette.provider,
            final(self).cassette.model == old(self).cassette.model,
            match *result {
                Ok(Some(answer)) => {
                    let before = old(self).cassette.interactions@;
                    let after = final(self).cassette.interactions@;
                    &&& after.len() == before.len() + 1
                    &&& after.drop_last() == before
                    &&& records(
                        after.last(),
                        before.len() as int,
                        system@,
                        user@,
                        answer,
                        old(self).api_key@,
                        elapsed_ms,
                    )
                },
                _ => final(self).cassette.interactions == old(self).cassette.interactions,
            },
    {
        match result {
            Ok(Some(answer)) => {
                let seq = self.cassette.interactions.len();
                let key = self.api_key.as_str();
                let kept_system = cassette::redact(system, key);
                let kept_user = cassette::redact(user, key);
                let kept_text = cassette::redact(answer.0.as_str(), key);
                let hash = cassette::request_hash(kept_system.as_str(), kept_user.as_str());
                let ghost before = self.cassette.interactions@;
                let interaction = Interaction {
                    seq,
                    kind: InteractionKind::Chat,
                    request_hash: hash,
                    request: Request { system: kept_system, user: kept_user },
                    response: Response {
                        text: Some(kept_text),
                        model: Some(answer.1.clone()),
                        prompt_tokens: answer.2,
                        completion_tokens: answer.3,
                        blob: None,
                    },
                    elapsed_ms,
                };
                self.cassette.interactions.push(interaction);
                assert(self.cassette.interactions@.drop_last() =~= before);
            },
            Ok(None) => {},
            Err(_) => {},
        }
    }

    pub fn into_cassette(self) -> (r: Cassette)
        ensures
            r == self.cassette,
    {
        self.cassette
    }
}

/// Serves the exchanges of a cassette, and nothing else.
pub struct ReplayGateway {
    pub cassette: Cassette,
    pub name: String,
}

/// What a replayed interaction answers.
pub open spec fn replayed(c: ModelCompletion, i: Interaction, model: Seq<char>) -> bool {
    &&& c.0@ == (match i.response.text {
        Some(t) => t@,
        None => Seq::empty(),
    })
    &&& c.1@ == (match i.response.model {
        Some(m) => m@,
        None => model,
    })
    &&& c.2 == i.response.prompt_tokens
    &&& c.3 == i.response.completion_tokens
}

impl ReplayGateway {
    pub fn new(cassette: Cassette, name: String) -> (r: ReplayGateway)
        ensures
            r.cassette == cassette,
            r.name == name,
    {
        ReplayGateway { cassette, name }
    }

    /// What the cassette holds for a request; a report of what changed where it
    /// holds nothing.
    pub fn complete(&self, system: &str, user: &str) -> (r: Result<Option<ModelCompletion>, String>)
        ensures
            ({
                let all = self.cassette.interactions@;
                let hash = cassette::hash_of(system@, user@);
                if cassette::recorded(all, hash) {
                    r matches Ok(Some(c)) && exists|i: int| #[trigger]
                        cassette::first_of(all, i, hash) && replayed(
                            c,
                            all[i],
                            self.cassette.model@,
                        )
                } else {
                    r matches Err(m) && is_miss_report(m@, all, self.name@, system@, user@)
                }
            }),
    {
        match self.cassette.position(system, user) {
            Some(i) => {
                let found = &self.cassette.interactions[i];
                assert(cassette::recorded(
                    self.cassette.interactions@,
                    cassette::hash_of(system@, user@),
                )) by {
                    assert(self.cassette.interactions@[i as int].request_hash@
                        == cassette::hash_of(system@, user@));
                }
                let answer = match &found.response.text {
                    Some(t) => t.clone(),
                    None => String::new(),
                };
                let model = match &found.response.model {
                    Some(m) => m.clone(),
                    None => self.cassette.model.clone(),
                };
                let c = (
                    answer,
                    model,
                    found.response.prompt_tokens,
                    found.response.completion_tokens,
                );
                assert(found.response.text is None ==> answer@ =~= Seq::<char>::empty());
                assert(cassette::first_of(
                    self.cassette.interactions@,
                    i as int,
                    cassette::hash_of(system@, user@),
                ));
                Ok(Some(c))
            },
            None => Err(
                miss_report(
                    &self.cassette.interactions,
                    self.name.as_str(),
                    system,
                    user,
                ),
            ),
        }
    }
}

/// What was recorded is replayed: an exchange that was put on a cassette is given
/// back for the same request, without the credentials that were in it, as long
/// as the request itself held none and no earlier exchange had its hash.
pub proof fn recordings_are_replayed(
    before: Seq<Interaction>,
    recorded: Interaction,
    system: Seq<char>,
    user: Seq<char>,
    answer: ModelCompletion,
    api_key: Seq<char>,
    elapsed_ms: u64,
    c: ModelCompletion,
    model: Seq<char>,
)
    requires
        records(recorded, before.len() as int, system, user, answer, api_key, elapsed_ms),
        cassette::redacted(system, api_key) == system,
        cassette::redacted(user, api_key) == user,
        !cassette::recorded(before, cassette::hash_of(system, user)),
        exists|i: int| #[trigger]
            cassette::first_of(before.push(recorded), i, cassette::hash_of(system, user))
                && replayed(c, before.push(recorded)[i], model),
    ensures
        cassette::recorded(before.push(recorded), cassette::hash_of(system, user)),
        c.0@ == cassette::redacted(answer.0@, api_key),
        c.1@ == answer.1@,
        c.2 == answer.2,
        c.3 == answer.3,
{
    let all = before.push(recorded);
    let hash = cassette::hash_of(system, user);
    assert(all[before.len() as int].request_hash@ == hash);
    let i = choose|i: int| #[trigger]
        cassette::first_of(all, i, hash) && replayed(c, all[i], model);
    if i < before.len() {
        assert(before[i].request_hash@ == hash);
    }
}

// ---------------------------------------------------------------------------
// Misses
// ---------------------------------------------------------------------------

pub const MAX_DIFF_LINES: usize = 12;

pub const MAX_DIFF_LINE_CHARS: usize = 200;

/// How many lines two texts have in common at their beginnings.
pub open spec fn common_prefix(a: Seq<Seq<char>>, b: Seq<Seq<char>>) -> nat
    decreases a.len(),
{
    if a.len() > 0 && b.len() > 0 && a[0] == b[0] {
        1 + common_prefix(a.drop_first(), b.drop_first())
    } else {
        0
    }
}

proof fn lemma_common_prefix(a: Seq<Seq<char>>, b: Seq<Seq<char>>, k: int)
    requires
        0 <= k <= a.len(),
        k <= b.len(),
        forall|j: int| 0 <= j < k ==> a[j] == b[j],
        k < a.len() && k < b.len() ==> a[k] != b[k],
    ensures
        common_prefix(a, b) == k,
    decreases a.len(),
{
    if k > 0 {
        let s = a.drop_first();
        let t = b.drop_first();
        assert forall|j: int| 0 <= j < k - 1 implies s[j] == t[j] by {
            assert(s[j] == a[j + 1]);
            assert(t[j] == b[j + 1]);
        }
        lemma_common_prefix(s, t, k - 1);
    }
}

fn common_prefix_lines(left: &str, right: &str) -> (r: usize)
    ensures
        r == common_prefix(text::lines_of(left@), text::lines_of(right@)),
        r <= text::lines_of(left@).len(),
{
    let a = text::lines(left);
    let b = text::lines(right);
    let ghost la = text::lines_of(left@);
    let ghost lb = text::lines_of(right@);
    assert(la == text::texts(a@));
    assert(lb == text::texts(b@));
    let mut i: usize = 0;
    while i < a.len() && i < b.len() && text::same(a[i].as_str(), b[i].as_str())
        invariant
            i <= a.len(),
            i <= b.len(),
            la == text::texts(a@),
            lb == text::texts(b@),
            forall|j: int| 0 <= j < i ==> (#[trigger] la[j]) == lb[j],
        decreases a.len() - i,
    {
        assert(la[i as int] == a@[i as int]@);
        assert(lb[i as int] == b@[i as int]@);
        i += 1;
    }
    proof {
        if i < a.len() && i < b.len() {
            assert(la[i as int] == a@[i as int]@);
            assert(lb[i as int] == b@[i as int]@);
        }
        lemma_common_prefix(la, lb, i as int);
    }
    i
}

/// How near an interaction is to a request: the lines that both of its halves
/// have in common with it at their beginnings.
pub open spec fn nearness(i: Interaction, system: Seq<char>, user: Seq<char>) -> nat {
    common_prefix(text::lines_of(i.request.system@), text::lines_of(system)) + common_prefix(
        text::lines_of(i.request.user@),
        text::lines_of(user),
    )
}

/// Whether an interaction is the nearest: none is nearer, and none behind it is
/// as near.
pub open spec fn nearest_at(
    v: Seq<Interaction>,
    i: int,
    system: Seq<char>,
    user: Seq<char>,
) -> bool {
    &&& 0 <= i < v.len()
    &&& forall|j: int|
        0 <= j < v.len() ==> nearness(#[trigger] v[j], system, user) <= nearness(
            v[i],
            system,
            user,
        )
    &&& forall|j: int|
        i < j < v.len() ==> nearness(#[trigger] v[j], system, user) < nearness(v[i], system, user)
}

fn near(i: &Interaction, system: &str, user: &str) -> (r: u128)
    ensures
        r == nearness(*i, system@, user@),
{
    let a = common_prefix_lines(i.request.system.as_str(), system);
    let b = common_prefix_lines(i.request.user.as_str(), user);
    a as u128 + b as u128
}

fn nearest_interaction(v: &Vec<Interaction>, system: &str, user: &str) -> (r: Option<usize>)
    ensures
        match r {
            Some(i) => nearest_at(v@, i as int, system@, user@),
            None => v@.len() == 0,
        },
{
    if v.len() == 0 {
        return None;
    }
    let mut best: usize = 0;
    let mut most = near(&v[0], system, user);
    let mut i: usize = 1;
    while i < v.len()
        invariant
            1 <= i <= v.len(),
            best < i,
            most == nearness(v@[best as int], system@, user@),
            forall|j: int|
                0 <= j < i ==> nearness(#[trigger] v@[j], system@, user@) <= nearness(
                    v@[best as int],
                    system@,
                    user@,
                ),
            forall|j: int|
                best < j < i ==> nearness(#[trigger] v@[j], system@, user@) < nearness(
                    v@[best as int],
                    system@,
                    user@,
                ),
        decreases v.len() - i,
    {
        let n = near(&v[i], system, user);
        if n >= most {
            best = i;
            most = n;
        }
        i += 1;
    }
    Some(best)
}

/// A text, cut where it is long.
pub open spec fn truncated(s: Seq<char>, max: int) -> Seq<char> {
    if s.len() <= max {
        s
    } else {
        text::first_chars(s, max) + "…"@
    }
}

pub fn truncate(value: &str, max_chars: usize) -> (r: String)
    ensures
        r@ == truncated(value@, max_chars as int),
{
    let chars = text::chars_of(value);
    if chars.len() <= max_chars {
        return text::copy(value);
    }
    let mut kept = text::take_chars(value, max_chars);
    kept.append("…");
    kept
}

/// A line of a difference: its mark, its number, and the line.
pub open spec fn diff_line(mark: Seq<char>, index: int, line: Seq<char>) -> Seq<char> {
    mark + text::padded(text::decimal((index + 1) as nat), 4) + " "@ + truncated(
        line,
        MAX_DIFF_LINE_CHARS as int,
    ) + "\n"@
}

/// The line at an index, where there is one.
pub open spec fn line_at(v: Seq<Seq<char>>, i: int) -> Option<Seq<char>> {
    if 0 <= i < v.len() {
        Some(v[i])
    } else {
        None
    }
}

/// The differences from a line on, where so many were shown before.
pub open spec fn diff_from(
    recorded: Seq<Seq<char>>,
    live: Seq<Seq<char>>,
    i: int,
    shown: int,
) -> Seq<char>
    decreases recorded.len() + live.len() - i,
{
    if i >= recorded.len() && i >= live.len() {
        Seq::empty()
    } else if line_at(recorded, i) == line_at(live, i) {
        diff_from(recorded, live, i + 1, shown)
    } else if shown == MAX_DIFF_LINES {
        "… (further differences omitted)\n"@
    } else {
        let before = match line_at(recorded, i) {
            Some(line) => diff_line("-"@, i, line),
            None => Seq::empty(),
        };
        let after = match line_at(live, i) {
            Some(line) => diff_line("+"@, i, line),
            None => Seq::empty(),
        };
        before + after + diff_from(recorded, live, i + 1, shown + 1)
    }
}

/// The differences between two texts, line by line.
pub open spec fn diff_of(recorded: Seq<char>, live: Seq<char>) -> Seq<char> {
    let d = diff_from(text::lines_of(recorded), text::lines_of(live), 0, 0);
    if d.len() == 0 {
        "(identical line-by-line; difference is in trailing whitespace)\n"@
    } else {
        d
    }
}

fn make_diff_line(mark: &str, index: usize, line: &str) -> (r: String)
    requires
        index < usize::MAX,
    ensures
        r@ == diff_line(mark@, index as int, line@),
{
    let number = text::decimal_of(index as u128 + 1);
    let column = text::pad_left(number, 4);
    let cut = truncate(line, MAX_DIFF_LINE_CHARS);
    let mut s = text::copy(mark);
    s.append(column.as_str());
    s.append(" ");
    s.append(cut.as_str());
    s.append("\n");
    s
}

pub fn line_diff(recorded: &str, live: &str) -> (r: String)
    ensures
        r@ == diff_of(recorded@, live@),
{
    let a = text::lines(recorded);
    let b = text::lines(live);
    let ghost la = text::lines_of(recorded@);
    let ghost lb = text::lines_of(live@);
    assert(la == text::texts(a@));
    assert(lb == text::texts(b@));
    let n = if a.len() > b.len() {
        a.len()
    } else {
        b.len()
    };
    let ghost all = diff_from(la, lb, 0, 0);
    let mut out = String::new();
    let mut shown: usize = 0;
    let mut i: usize = 0;
    let mut stopped = false;
    assert(out@ + all =~= all);
    while !stopped && i < n
        invariant
            i <= n,
            a.len() <= n,
            b.len() <= n,
            n == a.len() || n == b.len(),
            la == text::texts(a@),
            lb == text::texts(b@),
            shown <= MAX_DIFF_LINES,
            stopped ==> all == out@,
            !stopped ==> all == out@ + diff_from(la, lb, i as int, shown as int),
        decreases
            n - i,
            if stopped {
                0int
            } else {
                1int
            },
    {
        let in_a = i < a.len();
        let in_b = i < b.len();
        proof {
            if in_a {
                assert(la[i as int] == a@[i as int]@);
            }
            if in_b {
                assert(lb[i as int] == b@[i as int]@);
            }
        }
        let equal = if in_a && in_b {
            text::same(a[i].as_str(), b[i].as_str())
        } else {
            false
        };
        if equal {
            i += 1;
        } else if shown == MAX_DIFF_LINES {
            out.append("… (further differences omitted)\n");
            stopped = true;
        } else {
            let ghost before = out@;
            let ghost removed = match line_at(la, i as int) {
                Some(line) => diff_line("-"@, i as int, line),
                None => Seq::empty(),
            };
            let ghost added = match line_at(lb, i as int) {
                Some(line) => diff_line("+"@, i as int, line),
                None => Seq::empty(),
            };
            if in_a {
                let line = make_diff_line("-", i, a[i].as_str());
                out.append(line.as_str());
            }
            assert(out@ =~= before + removed);
            if in_b {
                let line = make_diff_line("+", i, b[i].as_str());
                out.append(line.as_str());
            }
            assert(out@ =~= before + removed + added);
            proof {
                let rest = diff_from(la, lb, i + 1, shown + 1);
                assert(before + (removed + added + rest) =~= (before + removed + added) + rest);
            }
            shown += 1;
            i += 1;
        }
    }
    assert(out@ + Seq::<char>::empty() =~= out@);
    if out.as_str().is_empty() {
        return text::copy("(identical line-by-line; difference is in trailing whitespace)\n");
    }
    out
}

/// The head of a report: which cassette lacks which request.
pub open spec fn miss_head(name: Seq<char>, hash: Seq<char>) -> Seq<char> {
    "cassette `"@ + name + "` has nothing recorded for this prompt ("@ + hash
        + ").\nIt was recorded for different wording, or this path never ran.\nRe-record with --record "@
        + name + ", or restore the earlier prompt."@
}

/// What differs from an interaction.
pub open spec fn miss_details(i: Interaction, system: Seq<char>, user: Seq<char>) -> Seq<char> {
    let of_system = if i.request.system@ != system {
        "\n--- system prompt ---\n"@ + diff_of(i.request.system@, system)
    } else {
        Seq::empty()
    };
    let of_user = if i.request.user@ != user {
        "\n--- user prompt ---\n"@ + diff_of(i.request.user@, user)
    } else {
        Seq::empty()
    };
    "\n\nNearest recorded interaction is #"@ + text::decimal(i.seq as nat) + ":\n"@ + of_system
        + of_user
}

/// Whether a text reports a request that is not on a cassette: its head, and what
/// differs from the nearest interaction, where there is one.
pub open spec fn is_miss_report(
    m: Seq<char>,
    v: Seq<Interaction>,
    name: Seq<char>,
    system: Seq<char>,
    user: Seq<char>,
) -> bool {
    let head = miss_head(name, cassette::hash_of(system, user));
    if v.len() == 0 {
        m == head
    } else {
        exists|i: int| #[trigger]
            nearest_at(v, i, system, user) && m == head + miss_details(v[i], system, user)
    }
}

/// Explains, by what changed, why a cassette has nothing for a request.
pub fn miss_report(v: &Vec<Interaction>, name: &str, system: &str, user: &str) -> (r: String)
    ensures
        is_miss_report(r@, v@, name@, system@, user@),
{
    let wanted = cassette::request_hash(system, user);
    let mut report = text::copy("cassette `");
    report.append(name);
    report.append("` has nothing recorded for this prompt (");
    report.append(wanted.as_str());
    report.append(
        ").\nIt was recorded for different wording, or this path never ran.\nRe-record with --record ",
    );
    report.append(name);
    report.append(", or restore the earlier prompt.");
    let ghost head = report@;
    match nearest_interaction(v, system, user) {
        Some(k) => {
            let nearest = &v[k];
            let number = text::decimal_of(nearest.seq as u128);
            let mut details = text::copy("\n\nNearest recorded interaction is #");
            details.append(number.as_str());
            details.append(":\n");
            if !text::same(nearest.request.system.as_str(), system) {
                let diff = line_diff(nearest.request.system.as_str(), system);
                let mut part = text::copy("\n--- system prompt ---\n");
                part.append(diff.as_str());
                details.append(part.as_str());
            } else {
                assert(details@ + Seq::<char>::empty() =~= details@);
            }
            if !text::same(nearest.request.user.as_str(), user) {
                let diff = line_diff(nearest.request.user.as_str(), user);
                let mut part = text::copy("\n--- user prompt ---\n");
                part.append(diff.as_str());
                details.append(part.as_str());
            } else {
                assert(details@ + Seq::<char>::empty() =~= details@);
            }
            assert(details@ == miss_details(*nearest, system@, user@));
            report.append(details.as_str());
            assert(nearest_at(v@, k as int, system@, user@));
        },
        None => {},
    }
    report
}

/// A report of a miss names the cassette and the request, whatever is on it.
pub proof fn misses_name_the_cassette(
    m: Seq<char>,
    v: Seq<Interaction>,
    name: Seq<char>,
    system: Seq<char>,
    user: Seq<char>,
)
    requires
        is_miss_report(m, v, name, system, user),
    ensures
        text::begins(m, miss_head(name, cassette::hash_of(system, user))),
        text::occurs(m, name),
{
    reveal_strlit("cassette `");
    let head = miss_head(name, cassette::hash_of(system, user));
    let n = head.len() as int;
    assert(m.subrange(0, n) =~= head);
    assert(m.subrange(10, 10 + name.len() as int) =~= name);
    assert(text::occurs_at(m, name, 10));
}

/// What is recorded of an answer is its place, the two prompts and the text without keys, the hash of
/// the prompts as they are kept, and the model, tokens and time as they were.
pub proof fn answers_are_recorded_without_keys(
    i: Interaction,
    seq: int,
    system: Seq<char>,
    user: Seq<char>,
    answer: ModelCompletion,
    api_key: Seq<char>,
    elapsed_ms: u64,
)
    requires
        records(i, seq, system, user, answer, api_key, elapsed_ms),
    ensures
        i.seq == seq,
        i.kind is Chat,
        i.request.system@ == cassette::redacted(system, api_key),
        i.request.user@ == cassette::redacted(user, api_key),
        i.request_hash@ == cassette::hash_of(i.request.system@, i.request.user@),
        i.response.text is Some && i.response.text->0@ == cassette::redacted(answer.0@, api_key),
        i.response.model is Some && i.response.model->0@ == answer.1@,
        i.response.prompt_tokens == answer.2,
        i.response.completion_tokens == answer.3,
        i.response.blob is None,
        i.elapsed_ms == elapsed_ms,
{
}

/// What is replayed is the recorded text, empty where there is none, under the recorded model or
/// else the cassette's, with the recorded tokens.
pub proof fn replies_are_what_was_recorded(c: ModelCompletion, i: Interaction, model: Seq<char>)
    requires
        replayed(c, i, model),
    ensures
        i.response.text is Some ==> c.0@ == i.response.text->0@,
        i.response.text is None ==> c.0@ == Seq::<char>::empty(),
        i.response.model is Some ==> c.1@ == i.response.model->0@,
        i.response.model is None ==> c.1@ == model,
        c.2 == i.response.prompt_tokens,
        c.3 == i.response.completion_tokens,
{
}

/// Two texts agree in the lines before the first in which they differ or one of them ends.
pub proof fn texts_agree_up_to_their_first_difference(a: Seq<Seq<char>>, b: Seq<Seq<char>>)
    ensures
        common_prefix(a, b) <= a.len(),
        common_prefix(a, b) <= b.len(),
        forall|i: int| 0 <= i < common_prefix(a, b) ==> #[trigger] a[i] == b[i],
        common_prefix(a, b) < a.len() && common_prefix(a, b) < b.len() ==> a[common_prefix(a, b) as int]
            != b[common_prefix(a, b) as int],
    decreases a.len(),
{
    if a.len() > 0 && b.len() > 0 && a[0] == b[0] {
        let (s, t) = (a.drop_first(), b.drop_first());
        texts_agree_up_to_their_first_difference(s, t);
        assert forall|i: int| 0 <= i < common_prefix(a, b) implies #[trigger] a[i] == b[i] by {
            if i > 0 {
                assert(s[i - 1] == t[i - 1]);
            }
        }
    }
}

/// The interaction nearest to a request agrees with it in the most lines of both prompts, and is the
/// last of those that do.
pub proof fn the_nearest_agrees_in_the_most_lines(
    v: Seq<Interaction>,
    i: int,
    system: Seq<char>,
    user: Seq<char>,
)
    ensures
        nearest_at(v, i, system, user) <==> 0 <= i < v.len() && (forall|j: int|
            0 <= j < v.len() ==> nearness(#[trigger] v[j], system, user) + (if j > i {
                1int
            } else {
                0
            }) <= nearness(v[i], system, user)),
        forall|k: Interaction| #[trigger]
            nearness(k, system, user) == common_prefix(
                text::lines_of(k.request.system@),
                text::lines_of(system),
            ) + common_prefix(text::lines_of(k.request.user@), text::lines_of(user)),
{
    if 0 <= i < v.len() && (forall|j: int|
        0 <= j < v.len() ==> nearness(#[trigger] v[j], system, user) + (if j > i {
            1int
        } else {
            0
        }) <= nearness(v[i], system, user)) {
        assert forall|j: int| 0 <= j < v.len() implies nearness(#[trigger] v[j], system, user)
            <= nearness(v[i], system, user) by {}
    }
}

/// A line that is too long is cut after its first characters, and an ellipsis stands for the rest.
pub proof fn long_lines_are_cut(s: Seq<char>, max: int)
    requires
        0 <= max,
    ensures
        s.len() <= max ==> truncated(s, max) == s,
        s.len() > max ==> truncated(s, max) == s.subrange(0, max) + "…"@,
        MAX_DIFF_LINES == 12,
        MAX_DIFF_LINE_CHARS == 200,
{
    if s.len() > max {
        assert(text::first_chars(s, max) =~= s.subrange(0, max));
    }
}

/// A line of a difference is its mark, its number from one on, in four places, and its first two
/// hundred characters.
pub proof fn differing_lines_are_numbered(mark: Seq<char>, index: int, line: Seq<char>)
    requires
        0 <= index,
    ensures
        diff_line(mark, index, line) == mark + text::padded(text::decimal((index + 1) as nat), 4)
            + " "@ + (if line.len() <= 200 {
            line
        } else {
            line.subrange(0, 200) + "…"@
        }) + "\n"@,
{
    long_lines_are_cut(line, 200);
}

proof fn lemma_one_difference(a: Seq<Seq<char>>, b: Seq<Seq<char>>, k: int, i: int)
    requires
        a.len() == b.len(),
        0 <= k < a.len(),
        0 <= i <= a.len(),
        forall|j: int| 0 <= j < a.len() && j != k ==> #[trigger] a[j] == b[j],
        a[k] != b[k],
    ensures
        i <= k ==> diff_from(a, b, i, 0) == diff_line("-"@, k, a[k]) + diff_line("+"@, k, b[k]),
        i > k ==> diff_from(a, b, i, 1) == Seq::<char>::empty(),
    decreases a.len() - i,
{
    if i < a.len() {
        lemma_one_difference(a, b, k, i + 1);
        if i == k {
            assert(diff_from(a, b, i + 1, 1) == Seq::<char>::empty());
            assert(diff_line("-"@, k, a[k]) + diff_line("+"@, k, b[k]) + Seq::<char>::empty()
                =~= diff_line("-"@, k, a[k]) + diff_line("+"@, k, b[k]));
        }
    }
}

proof fn lemma_no_difference(a: Seq<Seq<char>>, i: int, shown: int)
    requires
        0 <= i <= a.len(),
    ensures
        diff_from(a, a, i, shown) == Seq::<char>::empty(),
    decreases a.len() - i,
{
    if i < a.len() {
        lemma_no_difference(a, i + 1, shown);
    }
}

/// Two prompts that differ in one line are shown by that line alone, as it was recorded and as it is
/// now; two whose lines are the same are said to be.
pub proof fn differences_show_the_lines_that_differ(recorded: Seq<char>, live: Seq<char>, k: int)
    ensures
        text::lines_of(recorded) == text::lines_of(live) ==> diff_of(recorded, live)
            == "(identical line-by-line; difference is in trailing whitespace)\n"@,
        text::lines_of(recorded).len() == text::lines_of(live).len() && 0 <= k < text::lines_of(
            recorded,
        ).len() && text::lines_of(recorded)[k] != text::lines_of(live)[k] && (forall|j: int|
            0 <= j < text::lines_of(recorded).len() && j != k ==> #[trigger] text::lines_of(
                recorded,
            )[j] == text::lines_of(live)[j]) ==> diff_of(recorded, live) == diff_line(
            "-"@,
            k,
            text::lines_of(recorded)[k],
        ) + diff_line("+"@, k, text::lines_of(live)[k]),
{
    let (a, b) = (text::lines_of(recorded), text::lines_of(live));
    if a == b {
        lemma_no_difference(a, 0, 0);
    }
    if a.len() == b.len() && 0 <= k < a.len() && a[k] != b[k] && (forall|j: int|
        0 <= j < a.len() && j != k ==> #[trigger] a[j] == b[j]) {
        lemma_one_difference(a, b, k, 0);
        reveal_strlit("-");
        reveal_strlit("\n");
        assert(diff_line("-"@, k, a[k]).len() > 0);
    }
}

/// Beyond the first twelve, differing lines are not shown, and that is said; lines that agree are
/// passed over; and a line that only one of the two has is shown alone.
pub proof fn differences_are_shown_line_by_line(
    a: Seq<Seq<char>>,
    b: Seq<Seq<char>>,
    i: int,
    shown: int,
)
    requires
        0 <= i,
        0 <= shown <= 12,
    ensures
        i < a.len() && i < b.len() && a[i] == b[i] ==> diff_from(a, b, i, shown) == diff_from(
            a,
            b,
            i + 1,
            shown,
        ),
        i < a.len() && i < b.len() && a[i] != b[i] && shown < 12 ==> diff_from(a, b, i, shown)
            == diff_line("-"@, i, a[i]) + diff_line("+"@, i, b[i]) + diff_from(
            a,
            b,
            i + 1,
            shown + 1,
        ),
        i < a.len() && i >= b.len() && shown < 12 ==> diff_from(a, b, i, shown) == diff_line(
            "-"@,
            i,
            a[i],
        ) + diff_from(a, b, i + 1, shown + 1),
        i >= a.len() && i < b.len() && shown < 12 ==> diff_from(a, b, i, shown) == diff_line(
            "+"@,
            i,
            b[i],
        ) + diff_from(a, b, i + 1, shown + 1),
        (i < a.len() || i < b.len()) && !(i < a.len() && i < b.len() && a[i] == b[i]) && shown == 12
            ==> diff_from(a, b, i, shown) == "… (further differences omitted)\n"@,
{
    if i < a.len() && i >= b.len() && shown < 12 {
        let d = diff_line("-"@, i, a[i]);
        assert(d + Seq::<char>::empty() =~= d);
    }
    if i >= a.len() && i < b.len() && shown < 12 {
        let d = diff_line("+"@, i, b[i]);
        assert(Seq::<char>::empty() + d =~= d);
    }
}

/// A request that was not recorded is reported with its hash and the way to record it, and, where
/// anything was recorded, with the number of the nearest and what differs in each prompt.
pub proof fn misses_show_the_nearest_request(
    m: Seq<char>,
    v: Seq<Interaction>,
    name: Seq<char>,
    system: Seq<char>,
    user: Seq<char>,
)
    requires
        is_miss_report(m, v, name, system, user),
    ensures
        ({
            let head = "cassette `"@ + name + "` has nothing recorded for this prompt ("@
                + cassette::hash_of(system, user)
                + ").\nIt was recorded for different wording, or this path never ran.\nRe-record with --record "@
                + name + ", or restore the earlier prompt."@;
            &&& v.len() == 0 ==> m == head
            &&& v.len() > 0 ==> exists|i: int| #[trigger]
                nearest_at(v, i, system, user) && m == head + ("\n\nNearest recorded interaction is #"@
                    + text::decimal(v[i].seq as nat) + ":\n"@ + (if v[i].request.system@ == system {
                    Seq::empty()
                } else {
                    "\n--- system prompt ---\n"@ + diff_of(v[i].request.system@, system)
                }) + (if v[i].request.user@ == user {
                    Seq::empty()
                } else {
                    "\n--- user prompt ---\n"@ + diff_of(v[i].request.user@, user)
                }))
        }),
{
    if v.len() > 0 {
        let head = miss_head(name, cassette::hash_of(system, user));
        let i = choose|i: int| #[trigger]
            nearest_at(v, i, system, user) && m == head + miss_details(v[i], system, user);
        assert(nearest_at(v, i, system, user));
    }
}

} // verus!
