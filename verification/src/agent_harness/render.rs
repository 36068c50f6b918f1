//! The lines that the driver prints.
//!
//! Times are given as the texts that they are shown as.
use vstd::prelude::*;

use crate::agent_harness::cassette::{Interaction, InteractionKind};
use crate::agent_harness::chain::{chain_steps, ChainReport, StepReport};
use crate::agents::router;
use crate::agents::AgentOutput;
use crate::ai::config::{AiConfig, AiProviderConfig, ConfigView};
use crate::ai::provider_capability::ProviderCapability;
use crate::pipeline;
use crate::text;

verus! {

broadcast use vstd::string::group_string_axioms;

/// Prints for people or for machines.
pub struct Renderer {
    pub json: bool,
}

impl Renderer {
    pub fn new(json: bool) -> (r: Renderer)
        ensures
            r.json == json,
    {
        Renderer { json }
    }

    pub fn is_json(&self) -> (r: bool)
        ensures
            r == self.json,
    {
        self.json
    }
}

/// What is shown of a key: whether there is one, and how long it is.
pub open spec fn key_shown(api_key: Seq<char>) -> Seq<char> {
    let key = text::trim_of(api_key);
    if key.len() == 0 {
        "unset"@
    } else {
        "set("@ + text::decimal(key.len()) + ")"@
    }
}

/// Never the key itself.
pub fn key_state(api_key: &str) -> (r: String)
    ensures
        r@ == key_shown(api_key@),
{
    let key = text::trim(api_key);
    let chars = text::chars_of(key.as_str());
    if chars.len() == 0 {
        return text::copy("unset");
    }
    let length = text::decimal_of(chars.len() as u128);
    let mut s = text::copy("set(");
    s.append(length.as_str());
    s.append(")");
    s
}

/// What is shown of a key tells nothing of it but its length: any two keys of
/// the same length are shown alike.
pub proof fn keys_of_a_length_are_shown_alike(a: Seq<char>, b: Seq<char>)
    requires
        text::trim_of(a).len() == text::trim_of(b).len(),
    ensures
        key_shown(a) == key_shown(b),
{
}

/// A dash where there is nothing to show.
pub fn blank_as_dash<'a>(value: &'a str) -> (r: &'a str)
    ensures
        r@ == (if text::blank(value@) {
            "-"@
        } else {
            value@
        }),
{
    if text::is_blank(value) {
        "-"
    } else {
        value
    }
}

/// An endpoint, or that it is the provider's own.
pub fn short<'a>(endpoint: &'a str) -> (r: &'a str)
    ensures
        r@ == (if text::blank(endpoint@) {
            "(provider default)"@
        } else {
            endpoint@
        }),
{
    if text::is_blank(endpoint) {
        "(provider default)"
    } else {
        endpoint
    }
}

/// The mark of what went well, or did not.
pub open spec fn mark_of(ok: bool) -> Seq<char> {
    if ok {
        "✓"@
    } else {
        "✗"@
    }
}

pub fn mark(ok: bool) -> (r: &'static str)
    ensures
        r@ == mark_of(ok),
{
    if ok {
        "✓"
    } else {
        "✗"
    }
}

/// The first line of a text, trimmed, and cut where it is long.
pub open spec fn first_line_of(value: Seq<char>) -> Seq<char> {
    let lines = text::lines_of(value);
    let line = if lines.len() > 0 {
        text::trim_of(lines[0])
    } else {
        text::trim_of(""@)
    };
    if line.len() <= 120 {
        line
    } else {
        text::first_chars(line, 120) + "…"@
    }
}

pub fn first_line(value: &str) -> (r: String)
    ensures
        r@ == first_line_of(value@),
{
    let lines = text::lines(value);
    assert(text::texts(lines@) == text::lines_of(value@));
    let line = if lines.len() > 0 {
        assert(text::texts(lines@)[0] == lines@[0]@);
        text::trim(lines[0].as_str())
    } else {
        text::trim("")
    };
    let chars = text::chars_of(line.as_str());
    if chars.len() <= 120 {
        return line;
    }
    let mut kept = text::take_chars(line.as_str(), 120);
    kept.append("…");
    kept
}

/// A first line is never longer than its limit and the mark of the cut.
pub proof fn first_lines_are_bounded(value: Seq<char>)
    ensures
        first_line_of(value).len() <= 121,
{
    reveal_strlit("…");
}

/// The row of a provider: its columns are filled, and of its key only the state
/// is shown.
pub open spec fn provider_shown(
    label: Seq<char>,
    provider: Seq<char>,
    model: Seq<char>,
    api_key: Seq<char>,
    endpoint: Seq<char>,
) -> Seq<char> {
    label + "  "@ + text::filled(
        if text::blank(provider) {
            "-"@
        } else {
            provider
        },
        12,
    ) + " "@ + text::filled(
        if text::blank(model) {
            "-"@
        } else {
            model
        },
        24,
    ) + " key "@ + text::filled(key_shown(api_key), 9) + " "@ + (if text::blank(endpoint) {
        "(provider default)"@
    } else {
        endpoint
    })
}

pub fn provider_row(label: &str, provider: &str, model: &str, api_key: &str, endpoint: &str) -> (r:
    String)
    ensures
        r@ == provider_shown(label@, provider@, model@, api_key@, endpoint@),
{
    let key = key_state(api_key);
    let mut s = text::copy(label);
    s.append("  ");
    s.append(text::pad_right(blank_as_dash(provider), 12).as_str());
    s.append(" ");
    s.append(text::pad_right(blank_as_dash(model), 24).as_str());
    s.append(" key ");
    s.append(text::pad_right(key.as_str(), 9).as_str());
    s.append(" ");
    s.append(short(endpoint));
    s
}

/// What machines are told of a provider: its settings, and of its key only the
/// state.
#[derive(Debug, PartialEq, Eq)]
pub struct ProviderSummary {
    pub provider: String,
    pub model: String,
    pub base_url: String,
    pub api_key: String,
    pub endpoint: String,
}

pub fn provider_json(
    provider: &str,
    model: &str,
    base_url: &str,
    api_key: &str,
    endpoint: &str,
) -> (r: ProviderSummary)
    ensures
        r.provider@ == provider@,
        r.model@ == model@,
        r.base_url@ == base_url@,
        r.api_key@ == key_shown(api_key@),
        r.endpoint@ == endpoint@,
{
    ProviderSummary {
        provider: text::copy(provider),
        model: text::copy(model),
        base_url: text::copy(base_url),
        api_key: key_state(api_key),
        endpoint: text::copy(endpoint),
    }
}

/// What a chain used and how far it came.
#[derive(Debug, Clone, Copy, PartialEq, Eq, Structural)]
pub struct ChainTotals {
    pub prompt_tokens: u64,
    pub completion_tokens: u64,
    pub elapsed_ms: u64,
    pub passed: usize,
}

/// A count, nothing where there is none.
pub open spec fn counted(n: Option<u32>) -> nat {
    match n {
        Some(v) => v as nat,
        None => 0,
    }
}

/// The sums over the first `n` steps: the tokens of prompts and of answers, the
/// time, and the steps that passed.
pub open spec fn sums(steps: Seq<StepReport>, n: int) -> (nat, nat, nat, nat)
    decreases n,
{
    if n <= 0 {
        (0, 0, 0, 0)
    } else {
        let (p, c, e, k) = sums(steps, n - 1);
        let step = steps[n - 1];
        (
            p + counted(step.prompt_tokens),
            c + counted(step.completion_tokens),
            e + step.elapsed_ms as nat,
            k + (if step.outcome is Ok {
                1nat
            } else {
                0
            }),
        )
    }
}

proof fn lemma_sums_grow(steps: Seq<StepReport>, k: int, n: int)
    requires
        0 <= k <= n,
    ensures
        sums(steps, k).0 <= sums(steps, n).0,
        sums(steps, k).1 <= sums(steps, n).1,
        sums(steps, k).2 <= sums(steps, n).2,
    decreases n - k,
{
    if k < n {
        lemma_sums_grow(steps, k, n - 1);
    }
}

/// Adds up a chain.
pub fn chain_totals(steps: &Vec<StepReport>) -> (r: ChainTotals)
    requires
        sums(steps@, steps@.len() as int).0 <= u64::MAX,
        sums(steps@, steps@.len() as int).1 <= u64::MAX,
        sums(steps@, steps@.len() as int).2 <= u64::MAX,
    ensures
        (
            r.prompt_tokens as nat,
            r.completion_tokens as nat,
            r.elapsed_ms as nat,
            r.passed as nat,
        ) == sums(steps@, steps@.len() as int),
{
    let n = steps.len();
    let mut prompt_tokens: u64 = 0;
    let mut completion_tokens: u64 = 0;
    let mut elapsed_ms: u64 = 0;
    let mut passed: usize = 0;
    let mut i: usize = 0;
    while i < n
        invariant
            i <= n,
            n == steps@.len(),
            passed <= i,
            sums(steps@, n as int).0 <= u64::MAX,
            sums(steps@, n as int).1 <= u64::MAX,
            sums(steps@, n as int).2 <= u64::MAX,
            (prompt_tokens as nat, completion_tokens as nat, elapsed_ms as nat, passed as nat)
                == sums(steps@, i as int),
        decreases n - i,
    {
        proof {
            lemma_sums_grow(steps@, i + 1, n as int);
        }
        let step = &steps[i];
        prompt_tokens += step.prompt_tokens.unwrap_or(0) as u64;
        completion_tokens += step.completion_tokens.unwrap_or(0) as u64;
        elapsed_ms += step.elapsed_ms;
        if step.outcome.is_ok() {
            passed += 1;
        }
        i += 1;
    }
    ChainTotals { prompt_tokens, completion_tokens, elapsed_ms, passed }
}

/// What is shown of a step's outcome: what it produced, or the first line of
/// what stopped it.
pub open spec fn detail(outcome: Result<String, String>) -> Seq<char> {
    match outcome {
        Ok(s) => s@,
        Err(e) => first_line_of(e@),
    }
}

/// The row of a step.
pub open spec fn step_row(step: StepReport, seconds: Seq<char>) -> Seq<char> {
    mark_of(step.outcome is Ok) + " "@ + text::filled(step.id@, 9) + " "@ + text::filled(
        step.executor@,
        13,
    ) + " "@ + seconds + "s  "@ + text::padded(text::decimal(step.interactions as nat), 4) + "  "@
        + detail(step.outcome)
}

/// The lines of a list, each behind a head.
pub open spec fn headed(head: Seq<char>, lines: Seq<Seq<char>>) -> Seq<Seq<char>> {
    lines.map_values(|l: Seq<char>| head + l)
}

/// At most six lines behind the first.
pub open spec fn further_lines(error: Seq<char>) -> Seq<Seq<char>> {
    let lines = text::lines_of(error);
    if lines.len() <= 1 {
        Seq::empty()
    } else if lines.len() <= 7 {
        lines.skip(1)
    } else {
        lines.subrange(1, 7)
    }
}

/// The lines of a step: its row; that its answer had to be repaired; its
/// warnings; what it was downgraded to; and more of what stopped it.
pub open spec fn step_report(step: StepReport, seconds: Seq<char>) -> Seq<Seq<char>> {
    let row = seq![step_row(step, seconds)];
    let repaired = if step.interactions > 1 {
        seq![
            "             ↳ "@ + text::decimal(step.interactions as nat)
                + " 轮（含 JSON 修复）"@,
        ]
    } else {
        Seq::empty()
    };
    let warned = headed("             ⚠ "@, text::texts(step.warnings@));
    let downgraded = match step.downgrade {
        Some(d) => seq!["             ↓ downgrade: "@ + d@],
        None => Seq::empty(),
    };
    let stopped = match step.outcome {
        Ok(_) => Seq::empty(),
        Err(e) => headed("               "@, further_lines(e@)),
    };
    row + repaired + warned + downgraded + stopped
}

fn push_headed(out: &mut Vec<String>, head: &str, lines: &Vec<String>, from: usize, to: usize)
    requires
        from <= to <= lines@.len(),
    ensures
        text::texts(final(out)@) == text::texts(old(out)@) + headed(
            head@,
            text::texts(lines@).subrange(from as int, to as int),
        ),
{
    let ghost before = text::texts(out@);
    let ghost all = text::texts(lines@);
    let mut i: usize = from;
    assert(before + headed(head@, all.subrange(from as int, from as int)) =~= before);
    while i < to
        invariant
            from <= i <= to <= lines@.len(),
            all == text::texts(lines@),
            text::texts(out@) == before + headed(head@, all.subrange(from as int, i as int)),
        decreases to - i,
    {
        let ghost sofar = text::texts(out@);
        let mut line = text::copy(head);
        line.append(lines[i].as_str());
        out.push(line);
        assert(text::texts(out@) =~= sofar.push(line@));
        assert(headed(head@, all.subrange(from as int, i + 1)) =~= headed(
            head@,
            all.subrange(from as int, i as int),
        ).push(line@));
        assert(before + headed(head@, all.subrange(from as int, i + 1)) =~= (before + headed(
            head@,
            all.subrange(from as int, i as int),
        )).push(line@));
        i += 1;
    }
}

/// The lines of a step.
pub fn step_lines(step: &StepReport, seconds: &str) -> (r: Vec<String>)
    ensures
        text::texts(r@) == step_report(*step, seconds@),
{
    let shown = match &step.outcome {
        Ok(s) => s.clone(),
        Err(e) => first_line(e.as_str()),
    };
    let count = text::decimal_of(step.interactions as u128);
    let column = text::pad_left(count.clone(), 4);
    let mut row = text::copy(mark(step.outcome.is_ok()));
    row.append(" ");
    row.append(text::pad_right(step.id.as_str(), 9).as_str());
    row.append(" ");
    row.append(text::pad_right(step.executor.as_str(), 13).as_str());
    row.append(" ");
    row.append(seconds);
    row.append("s  ");
    row.append(column.as_str());
    row.append("  ");
    row.append(shown.as_str());
    let mut out: Vec<String> = Vec::new();
    out.push(row);
    let ghost a = text::texts(out@);
    assert(a =~= seq![step_row(*step, seconds@)]);
    if step.interactions > 1 {
        let mut line = text::copy("             ↳ ");
        line.append(count.as_str());
        line.append(" 轮（含 JSON 修复）");
        out.push(line);
        assert(text::texts(out@) =~= a + seq![line@]);
    } else {
        assert(a + Seq::<Seq<char>>::empty() =~= a);
    }
    assert(text::texts(step.warnings@).subrange(0, step.warnings@.len() as int) =~= text::texts(
        step.warnings@,
    ));
    push_headed(&mut out, "             ⚠ ", &step.warnings, 0, step.warnings.len());
    let ghost b = text::texts(out@);
    match &step.downgrade {
        Some(d) => {
            let mut line = text::copy("             ↓ downgrade: ");
            line.append(d.as_str());
            out.push(line);
            assert(text::texts(out@) =~= b + seq![line@]);
        },
        None => {
            assert(b + Seq::<Seq<char>>::empty() =~= b);
        },
    }
    let ghost c = text::texts(out@);
    match &step.outcome {
        Ok(_) => {
            assert(c + Seq::<Seq<char>>::empty() =~= c);
        },
        Err(e) => {
            let lines = text::lines(e.as_str());
            let ghost all = text::lines_of(e@);
            assert(all == text::texts(lines@));
            assert(all.len() == lines@.len());
            let from: usize = if lines.len() > 1 {
                1
            } else {
                lines.len()
            };
            let to: usize = if lines.len() > 7 {
                7
            } else {
                lines.len()
            };
            assert(all.subrange(from as int, to as int) =~= further_lines(e@));
            push_headed(&mut out, "               ", &lines, from, to);
        },
    }
    out
}

/// The line below a chain: the steps that passed, of how many, the time, and the
/// tokens.
pub open spec fn footer(
    sums: (nat, nat, nat, nat),
    total: nat,
    seconds: Seq<char>,
) -> Seq<char> {
    text::decimal(sums.3) + "/"@ + text::decimal(total) + " 步通过 · "@ + seconds + "s · tokens "@
        + text::decimal(sums.0) + " in / "@ + text::decimal(sums.1) + " out"@
}

pub fn chain_footer(totals: ChainTotals, total: usize, seconds: &str) -> (r: String)
    ensures
        r@ == footer(
            (
                totals.prompt_tokens as nat,
                totals.completion_tokens as nat,
                totals.elapsed_ms as nat,
                totals.passed as nat,
            ),
            total as nat,
            seconds@,
        ),
{
    let mut s = text::decimal_of(totals.passed as u128);
    s.append("/");
    s.append(text::decimal_of(total as u128).as_str());
    s.append(" 步通过 · ");
    s.append(seconds);
    s.append("s · tokens ");
    s.append(text::decimal_of(totals.prompt_tokens as u128).as_str());
    s.append(" in / ");
    s.append(text::decimal_of(totals.completion_tokens as u128).as_str());
    s.append(" out");
    s
}

/// Whether the rest of the steps was left out on purpose.
pub fn stopped_on_purpose(totals: ChainTotals, total: usize, failed: bool) -> (r: bool)
    ensures
        r == (totals.passed < total && !failed),
{
    totals.passed < total && !failed
}

/// The line of media that was written.
pub fn media_line(path: &str, bytes: usize, elapsed_ms: u64) -> (r: String)
    ensures
        r@ == "wrote "@ + path@ + " ("@ + text::decimal((bytes / 1024) as nat) + " KiB) in "@
            + text::decimal(elapsed_ms as nat) + "ms"@,
{
    let mut s = text::copy("wrote ");
    s.append(path);
    s.append(" (");
    s.append(text::decimal_of((bytes / 1024) as u128).as_str());
    s.append(" KiB) in ");
    s.append(text::decimal_of(elapsed_ms as u128).as_str());
    s.append("ms");
    s
}

/// The line of an interaction.
pub fn interaction_line(i: &Interaction) -> (r: String)
    ensures
        r@ == "#"@ + text::decimal(i.seq as nat) + " "@ + (match i.kind {
            InteractionKind::Chat => "Chat"@,
            InteractionKind::Media => "Media"@,
        }) + " "@ + text::decimal(i.elapsed_ms as nat) + "ms  "@ + i.request_hash@,
{
    let kind = match i.kind {
        InteractionKind::Chat => "Chat",
        InteractionKind::Media => "Media",
    };
    let mut s = text::copy("#");
    s.append(text::decimal_of(i.seq as u128).as_str());
    s.append(" ");
    s.append(kind);
    s.append(" ");
    s.append(text::decimal_of(i.elapsed_ms as u128).as_str());
    s.append("ms  ");
    s.append(i.request_hash.as_str());
    s
}

// ---------------------------------------------------------------------------
// Reports
// ---------------------------------------------------------------------------

/// The report on the settings: where they are, and a row for each provider.
pub open spec fn config_report(
    chat: (ConfigView, Seq<char>),
    image: (ConfigView, Seq<char>),
    tts: (ConfigView, Seq<char>),
    music: (ConfigView, Seq<char>),
    config_dir: Seq<char>,
    log_path: Seq<char>,
    trace_path: Seq<char>,
) -> Seq<Seq<char>> {
    seq![
        "config dir   "@ + config_dir,
        "log          "@ + log_path,
        "agent trace  "@ + trace_path,
        ""@,
        config_row("chat "@, chat),
        config_row("image"@, image),
        config_row("tts  "@, tts),
        config_row("music"@, music),
    ]
}

/// The row of a configuration and its endpoint.
pub open spec fn config_row(label: Seq<char>, config: (ConfigView, Seq<char>)) -> Seq<char> {
    provider_shown(label, config.0.provider, config.0.model, config.0.api_key, config.1)
}

/// The lines of the first `n` steps of a chain, each with its time.
pub open spec fn steps_report(steps: Seq<StepReport>, seconds: Seq<Seq<char>>, n: int) -> Seq<
    Seq<char>,
>
    decreases n,
{
    if n <= 0 {
        Seq::empty()
    } else {
        steps_report(steps, seconds, n - 1) + step_report(steps[n - 1], seconds[n - 1])
    }
}

/// The report on a chain: its steps, what they sum up to, and whether the rest
/// was left out on purpose.
pub open spec fn chain_report(
    steps: Seq<StepReport>,
    seconds: Seq<Seq<char>>,
    total_seconds: Seq<char>,
) -> Seq<Seq<char>> {
    let total = pipeline::default_agent_steps().len();
    let added = sums(steps, steps.len() as int);
    let failed = exists|i: int| 0 <= i < steps.len() && (#[trigger] steps[i]).outcome is Err;
    let body = seq!["STEP        EXECUTOR         TIME  CALL  RESULT"@] + steps_report(
        steps,
        seconds,
        steps.len() as int,
    ) + seq![""@, footer(added, total, total_seconds)];
    if added.3 < total && !failed {
        body + seq!["（其余步骤未运行：--stop-after）"@]
    } else {
        body
    }
}

/// Lines behind others.
fn append_lines(out: &mut Vec<String>, more: Vec<String>)
    ensures
        text::texts(final(out)@) == text::texts(old(out)@) + text::texts(more@),
{
    let ghost before = text::texts(out@);
    let ghost added = text::texts(more@);
    let mut more = more;
    out.append(&mut more);
    assert(text::texts(out@) =~= before + added);
}

fn one_line(line: String) -> (r: Vec<String>)
    ensures
        text::texts(r@) == seq![line@],
{
    let mut out: Vec<String> = Vec::new();
    out.push(line);
    assert(text::texts(out@) =~= seq![line@]);
    out
}

fn no_lines() -> (r: Vec<String>)
    ensures
        text::texts(r@) == Seq::<Seq<char>>::empty(),
{
    let out: Vec<String> = Vec::new();
    assert(text::texts(out@) =~= Seq::<Seq<char>>::empty());
    out
}

/// What a provider said to its configuration.
#[derive(Debug, PartialEq, Eq)]
pub struct Validation {
    pub ok: bool,
    pub provider: String,
    pub model: String,
    pub endpoint: String,
    pub message: String,
}

/// What came of one turn of a chat: a text, and the tools that were called, each
/// with its arguments.
#[derive(Debug, PartialEq, Eq)]
pub struct Turn {
    pub text: Option<String>,
    pub tool_calls: Vec<(String, String)>,
}

pub open spec fn validation_report(v: Option<Validation>) -> Seq<Seq<char>> {
    match v {
        None => Seq::empty(),
        Some(v) => seq![
            mark_of(v.ok) + " connect     "@ + v.provider@ + " "@ + v.model@ + " @ "@ + (
            if text::blank(v.endpoint@) {
                "(provider default)"@
            } else {
                v.endpoint@
            }),
        ] + (if text::blank(v.message@) {
            Seq::empty()
        } else {
            seq!["           "@ + v.message@]
        }),
    }
}

pub open spec fn capability_report(c: ProviderCapability) -> Seq<Seq<char>> {
    seq![
        mark_of(c.chat_tools) + " chat tools"@,
        mark_of(c.json_mode) + " json mode"@,
        mark_of(c.streaming_cancellation) + " stream cancel"@,
        mark_of(c.media_url_output) + " media url output"@,
        "  deadlines   chat "@ + text::decimal(c.chat_deadline_ms as nat) + "ms / flow step "@
            + text::decimal(c.flow_step_deadline_ms as nat) + "ms / media fetch "@ + text::decimal(
            c.media_fetch_deadline_ms as nat,
        ) + "ms"@,
    ]
}

/// The names of the tools that were called.
pub open spec fn tool_names(calls: Seq<(String, String)>) -> Seq<Seq<char>> {
    calls.map_values(|c: (String, String)| c.0@)
}

pub open spec fn round_trip_report(r: Option<Result<Turn, String>>) -> Seq<Seq<char>> {
    match r {
        None => seq!["- live round-trip skipped (--offline)"@],
        Some(Err(m)) => seq![mark_of(false) + " live round-trip"@, "           "@ + m@],
        Some(Ok(turn)) => seq![mark_of(true) + " live round-trip"@] + (if turn.tool_calls@.len()
            == 0 {
            Seq::empty()
        } else {
            seq!["           tool calls: "@ + text::join_with(tool_names(turn.tool_calls@), ", "@)]
        }) + (match turn.text {
            Some(t) => seq!["           "@ + first_line_of(t@)],
            None => Seq::empty(),
        }),
    }
}

fn validation_lines(v: &Option<Validation>) -> (r: Vec<String>)
    ensures
        text::texts(r@) == validation_report(*v),
{
    match v {
        None => no_lines(),
        Some(v) => {
            let mut row = text::copy(mark(v.ok));
            row.append(" connect     ");
            row.append(v.provider.as_str());
            row.append(" ");
            row.append(v.model.as_str());
            row.append(" @ ");
            row.append(short(v.endpoint.as_str()));
            let mut out = one_line(row);
            let more = if text::is_blank(v.message.as_str()) {
                no_lines()
            } else {
                let mut line = text::copy("           ");
                line.append(v.message.as_str());
                one_line(line)
            };
            append_lines(&mut out, more);
            out
        },
    }
}

fn marked(ok: bool, what: &str) -> (r: String)
    ensures
        r@ == mark_of(ok) + what@,
{
    let mut s = text::copy(mark(ok));
    s.append(what);
    s
}

fn capability_lines(c: &ProviderCapability) -> (r: Vec<String>)
    ensures
        text::texts(r@) == capability_report(*c),
{
    let mut out: Vec<String> = Vec::new();
    out.push(marked(c.chat_tools, " chat tools"));
    out.push(marked(c.json_mode, " json mode"));
    out.push(marked(c.streaming_cancellation, " stream cancel"));
    out.push(marked(c.media_url_output, " media url output"));
    let mut line = text::copy("  deadlines   chat ");
    line.append(text::decimal_of(c.chat_deadline_ms as u128).as_str());
    line.append("ms / flow step ");
    line.append(text::decimal_of(c.flow_step_deadline_ms as u128).as_str());
    line.append("ms / media fetch ");
    line.append(text::decimal_of(c.media_fetch_deadline_ms as u128).as_str());
    line.append("ms");
    out.push(line);
    assert(text::texts(out@) =~= capability_report(*c));
    out
}

fn called(calls: &Vec<(String, String)>) -> (r: Vec<String>)
    ensures
        text::texts(r@) == tool_names(calls@),
{
    let mut names: Vec<String> = Vec::new();
    let mut i: usize = 0;
    while i < calls.len()
        invariant
            i <= calls.len(),
            names@.len() == i,
            forall|k: int| 0 <= k < i ==> (#[trigger] names@[k])@ == calls@[k].0@,
        decreases calls.len() - i,
    {
        names.push(calls[i].0.clone());
        i += 1;
    }
    assert(text::texts(names@) =~= tool_names(calls@));
    names
}

fn round_trip_lines(r: &Option<Result<Turn, String>>) -> (out: Vec<String>)
    ensures
        text::texts(out@) == round_trip_report(*r),
{
    match r {
        None => one_line(text::copy("- live round-trip skipped (--offline)")),
        Some(Err(m)) => {
            let mut line = text::copy("           ");
            line.append(m.as_str());
            let mut out = one_line(marked(false, " live round-trip"));
            append_lines(&mut out, one_line(line));
            assert(text::texts(out@) =~= round_trip_report(*r));
            out
        },
        Some(Ok(turn)) => {
            let mut out = one_line(marked(true, " live round-trip"));
            let tools = if turn.tool_calls.len() == 0 {
                no_lines()
            } else {
                let mut line = text::copy("           tool calls: ");
                let names = called(&turn.tool_calls);
                line.append(text::join(&names, ", ").as_str());
                one_line(line)
            };
            append_lines(&mut out, tools);
            let said = match &turn.text {
                Some(t) => {
                    let mut line = text::copy("           ");
                    line.append(first_line(t.as_str()).as_str());
                    one_line(line)
                },
                None => no_lines(),
            };
            append_lines(&mut out, said);
            out
        },
    }
}

pub open spec fn turn_report(turn: Turn) -> Seq<Seq<char>> {
    (match turn.text {
        Some(t) => seq![t@],
        None => Seq::empty(),
    }) + turn.tool_calls@.map_values(|c: (String, String)| "→ "@ + c.0@ + "("@ + c.1@ + ")"@) + (
    if turn.text is None && turn.tool_calls@.len() == 0 {
        seq!["(the model returned neither text nor a tool call)"@]
    } else {
        Seq::empty()
    })
}

/// What is shown of the model of an agent's output, where it had one.
pub open spec fn model_report(output: AgentOutput) -> Seq<Seq<char>> {
    match output.model {
        None => Seq::empty(),
        Some(model) => match (output.prompt_tokens, output.completion_tokens) {
            (Some(p), Some(c)) => seq![
                "model "@ + model@ + "  tokens "@ + text::decimal(p as nat) + " in / "@
                    + text::decimal(c as nat) + " out"@,
            ],
            _ => seq!["model "@ + model@],
        },
    }
}

/// The lines of an agent's output: how long it took, the model, what it was
/// downgraded to, its warnings, and the whole of it.
pub open spec fn agent_report(
    kind: Seq<char>,
    output: AgentOutput,
    payload: Seq<char>,
    elapsed_ms: u64,
) -> Seq<Seq<char>> {
    seq![kind + " completed in "@ + text::decimal(elapsed_ms as nat) + "ms"@] + model_report(output)
        + (match output.downgrade {
        Some(d) => seq!["downgrade: "@ + d@],
        None => Seq::empty(),
    }) + headed("warning: "@, text::texts(output.warnings@)) + seq![""@, payload]
}

fn model_lines(output: &AgentOutput) -> (r: Vec<String>)
    ensures
        text::texts(r@) == model_report(*output),
{
    match &output.model {
        None => no_lines(),
        Some(model) => {
            let mut line = text::copy("model ");
            line.append(model.as_str());
            match (output.prompt_tokens, output.completion_tokens) {
                (Some(p), Some(c)) => {
                    line.append("  tokens ");
                    line.append(text::decimal_of(p as u128).as_str());
                    line.append(" in / ");
                    line.append(text::decimal_of(c as u128).as_str());
                    line.append(" out");
                },
                _ => {},
            }
            one_line(line)
        },
    }
}

/// An entry of the log of calls.
#[derive(Debug, PartialEq, Eq)]
pub struct LogEntry {
    pub success: bool,
    pub action: String,
    pub provider: String,
    pub model: String,
    pub message: String,
}

pub open spec fn log_row(e: LogEntry) -> Seq<char> {
    mark_of(e.success) + " "@ + text::filled(e.action@, 14) + " "@ + text::filled(e.provider@, 10)
        + " "@ + text::filled(e.model@, 24) + " "@ + first_line_of(e.message@)
}

fn log_line(e: &LogEntry) -> (r: String)
    ensures
        r@ == log_row(*e),
{
    let mut s = text::copy(mark(e.success));
    s.append(" ");
    s.append(text::pad_right(e.action.as_str(), 14).as_str());
    s.append(" ");
    s.append(text::pad_right(e.provider.as_str(), 10).as_str());
    s.append(" ");
    s.append(text::pad_right(e.model.as_str(), 24).as_str());
    s.append(" ");
    s.append(first_line(e.message.as_str()).as_str());
    s
}

/// What is printed for people: nothing where the output is for machines.
pub open spec fn for_people(json: bool, lines: Seq<Seq<char>>) -> Seq<Seq<char>> {
    if json {
        Seq::empty()
    } else {
        lines
    }
}

impl Renderer {
    /// The report on a provider: what it said to its configuration, what it can
    /// do, and what came of a turn with it.
    pub fn probe(
        &self,
        validation: &Option<Validation>,
        capability: &ProviderCapability,
        round_trip: &Option<Result<Turn, String>>,
    ) -> (r: Vec<String>)
        ensures
            text::texts(r@) == for_people(
                self.json,
                validation_report(*validation) + capability_report(*capability)
                    + round_trip_report(*round_trip),
            ),
    {
        if self.json {
            return no_lines();
        }
        let mut out = validation_lines(validation);
        append_lines(&mut out, capability_lines(capability));
        append_lines(&mut out, round_trip_lines(round_trip));
        out
    }

    /// The report on one turn of a chat.
    pub fn turn(&self, result: &Turn) -> (r: Vec<String>)
        ensures
            text::texts(r@) == for_people(self.json, turn_report(*result)),
    {
        if self.json {
            return no_lines();
        }
        let mut out = match &result.text {
            Some(t) => one_line(t.clone()),
            None => no_lines(),
        };
        let ghost said = text::texts(out@);
        let ghost calls = result.tool_calls@.map_values(
            |c: (String, String)| "→ "@ + c.0@ + "("@ + c.1@ + ")"@,
        );
        let mut i: usize = 0;
        assert(said + calls.take(0) =~= said);
        while i < result.tool_calls.len()
            invariant
                i <= result.tool_calls.len(),
                calls == result.tool_calls@.map_values(
                    |c: (String, String)| "→ "@ + c.0@ + "("@ + c.1@ + ")"@,
                ),
                text::texts(out@) == said + calls.take(i as int),
            decreases result.tool_calls.len() - i,
        {
            let mut line = text::copy("→ ");
            line.append(result.tool_calls[i].0.as_str());
            line.append("(");
            line.append(result.tool_calls[i].1.as_str());
            line.append(")");
            let ghost before = text::texts(out@);
            out.push(line);
            assert(text::texts(out@) =~= before.push(line@));
            assert(said + calls.take(i + 1) =~= (said + calls.take(i as int)).push(calls[i as int]));
            i += 1;
        }
        assert(calls.take(i as int) =~= calls);
        let silent = if result.text.is_none() && result.tool_calls.len() == 0 {
            one_line(text::copy("(the model returned neither text nor a tool call)"))
        } else {
            no_lines()
        };
        append_lines(&mut out, silent);
        out
    }

    /// The report on an agent's output, which is also given as a text.
    pub fn agent(&self, kind: &str, output: &AgentOutput, payload: &str, elapsed_ms: u64) -> (r: Vec<
        String,
    >)
        ensures
            text::texts(r@) == for_people(
                self.json,
                agent_report(kind@, *output, payload@, elapsed_ms),
            ),
    {
        if self.json {
            return no_lines();
        }
        let mut head = text::copy(kind);
        head.append(" completed in ");
        head.append(text::decimal_of(elapsed_ms as u128).as_str());
        head.append("ms");
        let mut out = one_line(head);
        append_lines(&mut out, model_lines(output));
        let downgraded = match &output.downgrade {
            Some(d) => {
                let mut line = text::copy("downgrade: ");
                line.append(d.as_str());
                one_line(line)
            },
            None => no_lines(),
        };
        append_lines(&mut out, downgraded);
        assert(text::texts(output.warnings@).subrange(0, output.warnings@.len() as int)
            =~= text::texts(output.warnings@));
        push_headed(&mut out, "warning: ", &output.warnings, 0, output.warnings.len());
        let ghost before = text::texts(out@);
        out.push(text::copy(""));
        out.push(text::copy(payload));
        assert(text::texts(out@) =~= before + seq![""@, payload@]);
        out
    }

    /// The report on the settings.
    pub fn config(
        &self,
        chat: (&AiConfig, &str),
        image: (&AiProviderConfig, &str),
        tts: (&AiProviderConfig, &str),
        music: (&AiProviderConfig, &str),
        config_dir: &str,
        log_path: &str,
        trace_path: &str,
    ) -> (r: Vec<String>)
        ensures
            text::texts(r@) == for_people(
                self.json,
                config_report(
                    (chat.0@, chat.1@),
                    (image.0@, image.1@),
                    (tts.0@, tts.1@),
                    (music.0@, music.1@),
                    config_dir@,
                    log_path@,
                    trace_path@,
                ),
            ),
    {
        if self.json {
            return no_lines();
        }
        let mut out: Vec<String> = Vec::new();
        out.push(router::joined("config dir   ", config_dir));
        out.push(router::joined("log          ", log_path));
        out.push(router::joined("agent trace  ", trace_path));
        out.push(text::copy(""));
        out.push(
            provider_row(
                "chat ",
                chat.0.provider.as_str(),
                chat.0.model.as_str(),
                chat.0.api_key.as_str(),
                chat.1,
            ),
        );
        out.push(
            provider_row(
                "image",
                image.0.provider.as_str(),
                image.0.model.as_str(),
                image.0.api_key.as_str(),
                image.1,
            ),
        );
        out.push(
            provider_row(
                "tts  ",
                tts.0.provider.as_str(),
                tts.0.model.as_str(),
                tts.0.api_key.as_str(),
                tts.1,
            ),
        );
        out.push(
            provider_row(
                "music",
                music.0.provider.as_str(),
                music.0.model.as_str(),
                music.0.api_key.as_str(),
                music.1,
            ),
        );
        assert(text::texts(out@) =~= config_report(
            (chat.0@, chat.1@),
            (image.0@, image.1@),
            (tts.0@, tts.1@),
            (music.0@, music.1@),
            config_dir@,
            log_path@,
            trace_path@,
        ));
        out
    }

    /// The report on a chain, given the time of each step and of all of them.
    pub fn chain(&self, report: &ChainReport, seconds: &Vec<String>, total_seconds: &str) -> (r: Vec<
        String,
    >)
        requires
            seconds@.len() == report.steps@.len(),
            sums(report.steps@, report.steps@.len() as int).0 <= u64::MAX,
            sums(report.steps@, report.steps@.len() as int).1 <= u64::MAX,
            sums(report.steps@, report.steps@.len() as int).2 <= u64::MAX,
        ensures
            text::texts(r@) == for_people(
                self.json,
                chain_report(report.steps@, text::texts(seconds@), total_seconds@),
            ),
    {
        if self.json {
            return no_lines();
        }
        let ghost times = text::texts(seconds@);
        let ghost head = seq!["STEP        EXECUTOR         TIME  CALL  RESULT"@];
        let mut out = one_line(text::copy("STEP        EXECUTOR         TIME  CALL  RESULT"));
        assert(text::texts(out@) =~= head + steps_report(report.steps@, times, 0));
        let n = report.steps.len();
        let mut i: usize = 0;
        while i < n
            invariant
                i <= n,
                n == report.steps@.len(),
                seconds@.len() == n,
                times == text::texts(seconds@),
                text::texts(out@) == head + steps_report(report.steps@, times, i as int),
            decreases n - i,
        {
            let lines = step_lines(&report.steps[i], seconds[i].as_str());
            assert(times[i as int] == seconds@[i as int]@);
            append_lines(&mut out, lines);
            assert(text::texts(out@) =~= head + steps_report(report.steps@, times, i + 1));
            i += 1;
        }
        let steps = chain_steps();
        let total = steps.len();
        assert(total == pipeline::step_views(steps@).len());
        let totals = chain_totals(&report.steps);
        let ghost before = text::texts(out@);
        let below = chain_footer(totals, total, total_seconds);
        out.push(text::copy(""));
        out.push(below);
        assert(text::texts(out@) =~= before + seq![""@, below@]);
        let failed = report.failed();
        if stopped_on_purpose(totals, total, failed) {
            let ghost body = text::texts(out@);
            out.push(text::copy("（其余步骤未运行：--stop-after）"));
            assert(text::texts(out@) =~= body + seq!["（其余步骤未运行：--stop-after）"@]);
        }
        out
    }

    /// The report on media that was written.
    pub fn media(&self, path: &str, bytes: usize, elapsed_ms: u64) -> (r: Vec<String>)
        ensures
            text::texts(r@) == for_people(
                self.json,
                seq![
                    "wrote "@ + path@ + " ("@ + text::decimal((bytes / 1024) as nat) + " KiB) in "@
                        + text::decimal(elapsed_ms as nat) + "ms"@,
                ],
            ),
    {
        if self.json {
            return no_lines();
        }
        one_line(media_line(path, bytes, elapsed_ms))
    }

    /// The report on the log of calls.
    pub fn logs(&self, entries: &Vec<LogEntry>) -> (r: Vec<String>)
        ensures
            text::texts(r@) == for_people(
                self.json,
                if entries@.len() == 0 {
                    seq!["(no log entries)"@]
                } else {
                    entries@.map_values(|e: LogEntry| log_row(e))
                },
            ),
    {
        if self.json {
            return no_lines();
        }
        if entries.len() == 0 {
            return one_line(text::copy("(no log entries)"));
        }
        let mut out: Vec<String> = Vec::new();
        let mut i: usize = 0;
        while i < entries.len()
            invariant
                i <= entries.len(),
                out@.len() == i,
                forall|k: int| 0 <= k < i ==> (#[trigger] out@[k])@ == log_row(entries@[k]),
            decreases entries.len() - i,
        {
            out.push(log_line(&entries[i]));
            i += 1;
        }
        assert(text::texts(out@) =~= entries@.map_values(|e: LogEntry| log_row(e)));
        out
    }

    /// The lines of a file, as they are.
    pub fn raw_lines(&self, lines: Vec<String>) -> (r: Vec<String>)
        ensures
            text::texts(r@) == for_people(self.json, text::texts(lines@)),
    {
        if self.json {
            return no_lines();
        }
        lines
    }

    /// The report on the cassettes that there are.
    pub fn cassette_list(&self, names: Vec<String>, root: &str) -> (r: Vec<String>)
        ensures
            text::texts(r@) == for_people(
                self.json,
                if names@.len() == 0 {
                    seq!["(no cassettes under "@ + root@ + ")"@]
                } else {
                    text::texts(names@)
                },
            ),
    {
        if self.json {
            return no_lines();
        }
        if names.len() == 0 {
            let mut line = text::copy("(no cassettes under ");
            line.append(root);
            line.append(")");
            return one_line(line);
        }
        names
    }
}

/// A key is never shown, only whether it is set and how long it is without surrounding white space.
pub proof fn keys_are_shown_by_their_length(api_key: Seq<char>)
    ensures
        text::trim_of(api_key) == Seq::<char>::empty() ==> key_shown(api_key) == "unset"@,
        text::trim_of(api_key) != Seq::<char>::empty() ==> key_shown(api_key) == "set("@
            + text::decimal(text::trim_of(api_key).len()) + ")"@,
{
    if text::trim_of(api_key).len() == 0 {
        assert(text::trim_of(api_key) =~= Seq::<char>::empty());
    }
}

/// A message is shown by its first line without surrounding white space, cut after 120 characters.
pub proof fn messages_are_shown_by_their_first_line(value: Seq<char>)
    ensures
        text::lines_of(value).len() > 0 ==> ({
            let line = text::trim_of(text::lines_of(value)[0]);
            first_line_of(value) == (if line.len() <= 120 {
                line
            } else {
                line.subrange(0, 120) + "…"@
            })
        }),
        text::lines_of(value).len() == 0 ==> first_line_of(value) == Seq::<char>::empty(),
        mark_of(true) == "✓"@,
        mark_of(false) == "✗"@,
{
    reveal_strlit("");
    assert(""@ =~= Seq::<char>::empty());
    if text::lines_of(value).len() > 0 {
        let line = text::trim_of(text::lines_of(value)[0]);
        if line.len() > 120 {
            assert(text::first_chars(line, 120) =~= line.subrange(0, 120));
        }
    } else {
        text::trimming_takes_white_space_only(Seq::empty(), 0, 0);
    }
}

/// A provider is shown by its label, its name, its model, the state of its key and its endpoint, a
/// dash or the default standing for what is blank.
pub proof fn providers_are_shown_without_their_key(
    label: Seq<char>,
    provider: Seq<char>,
    model: Seq<char>,
    api_key: Seq<char>,
    endpoint: Seq<char>,
)
    ensures
        !text::blank(provider) && !text::blank(model) && !text::blank(endpoint) ==> provider_shown(
            label,
            provider,
            model,
            api_key,
            endpoint,
        ) == label + "  "@ + text::filled(provider, 12) + " "@ + text::filled(model, 24) + " key "@
            + text::filled(key_shown(api_key), 9) + " "@ + endpoint,
        text::blank(provider) && text::blank(model) && text::blank(endpoint) ==> provider_shown(
            label,
            provider,
            model,
            api_key,
            endpoint,
        ) == label + "  "@ + text::filled("-"@, 12) + " "@ + text::filled("-"@, 24) + " key "@
            + text::filled(key_shown(api_key), 9) + " "@ + "(provider default)"@,
{
}

proof fn lemma_sums_of_prefix(a: Seq<StepReport>, b: Seq<StepReport>, n: int)
    requires
        0 <= n <= a.len(),
    ensures
        sums(a + b, n) == sums(a, n),
    decreases n,
{
    if n > 0 {
        lemma_sums_of_prefix(a, b, n - 1);
        assert((a + b)[n - 1] == a[n - 1]);
    }
}

proof fn lemma_sums_behind(a: Seq<StepReport>, b: Seq<StepReport>, n: int)
    requires
        0 <= n <= b.len(),
    ensures
        sums(a + b, a.len() + n) == (
            sums(a, a.len() as int).0 + sums(b, n).0,
            sums(a, a.len() as int).1 + sums(b, n).1,
            sums(a, a.len() as int).2 + sums(b, n).2,
            sums(a, a.len() as int).3 + sums(b, n).3,
        ),
    decreases n,
{
    if n == 0 {
        lemma_sums_of_prefix(a, b, a.len() as int);
    } else {
        lemma_sums_behind(a, b, n - 1);
        assert((a + b)[a.len() + n - 1] == b[n - 1]);
    }
}

/// The totals of a chain are those of its steps taken together: tokens in and out, time, and the
/// steps that passed; a step that tells no tokens adds none.
pub proof fn totals_add_up(a: Seq<StepReport>, b: Seq<StepReport>, step: StepReport)
    ensures
        sums(a + b, (a + b).len() as int).0 == sums(a, a.len() as int).0 + sums(b, b.len() as int).0,
        sums(a + b, (a + b).len() as int).1 == sums(a, a.len() as int).1 + sums(b, b.len() as int).1,
        sums(a + b, (a + b).len() as int).2 == sums(a, a.len() as int).2 + sums(b, b.len() as int).2,
        sums(a + b, (a + b).len() as int).3 == sums(a, a.len() as int).3 + sums(b, b.len() as int).3,
        sums(seq![step], 1).0 == (if step.prompt_tokens is Some { step.prompt_tokens->0 as int } else {
            0
        }),
        sums(seq![step], 1).1 == (if step.completion_tokens is Some {
            step.completion_tokens->0 as int
        } else {
            0
        }),
        sums(seq![step], 1).2 == step.elapsed_ms,
        sums(seq![step], 1).3 == (if step.outcome is Ok { 1int } else { 0 }),
{
    lemma_sums_behind(a, b, b.len() as int);
    reveal_with_fuel(sums, 2);
    assert(seq![step][0] == step);
}

/// Of an error the lines behind the first are shown, six at most.
pub proof fn errors_show_six_further_lines(error: Seq<char>)
    ensures
        ({
            let lines = text::lines_of(error);
            let shown = further_lines(error);
            &&& shown.len() == (if lines.len() == 0 {
                0
            } else if lines.len() - 1 < 6 {
                lines.len() - 1
            } else {
                6
            })
            &&& forall|i: int| 0 <= i < shown.len() ==> #[trigger] shown[i] == lines[i + 1]
        }),
{
}

/// A step is shown by one row, then by its rounds where it took more than one, its warnings one by
/// one, its downgrade, and the further lines of its error.
pub proof fn steps_are_shown_row_by_row(step: StepReport, seconds: Seq<char>)
    ensures
        ({
            let shown = step_report(step, seconds);
            let w = step.warnings@.len() as int;
            let r: int = if step.interactions > 1 { 1 } else { 0 };
            let d: int = if step.downgrade is Some { 1 } else { 0 };
            let f = if step.outcome is Err {
                further_lines(step.outcome->Err_0@)
            } else {
                Seq::empty()
            };
            &&& shown.len() == 1 + r + w + d + f.len()
            &&& shown[0] == step_row(step, seconds)
            &&& r == 1 ==> shown[1] == "             ↳ "@ + text::decimal(step.interactions as nat)
                + " 轮（含 JSON 修复）"@
            &&& forall|i: int|
                0 <= i < w ==> #[trigger] shown[1 + r + i] == "             ⚠ "@ + step.warnings@[i]@
            &&& d == 1 ==> shown[1 + r + w] == "             ↓ downgrade: "@ + step.downgrade->0@
            &&& forall|i: int|
                0 <= i < f.len() ==> #[trigger] shown[1 + r + w + d + i] == "               "@ + f[i]
        }),
{
    let w = text::texts(step.warnings@);
    assert(w.len() == step.warnings@.len());
    assert(forall|i: int| 0 <= i < w.len() ==> #[trigger] w[i] == step.warnings@[i]@);
}

/// The row of a step has its mark, id, executor, time and number of rounds, and what came of it.
pub proof fn rows_say_what_came_of_a_step(step: StepReport, seconds: Seq<char>)
    ensures
        step.outcome is Ok ==> step_row(step, seconds) == "✓"@ + " "@ + text::filled(step.id@, 9)
            + " "@ + text::filled(step.executor@, 13) + " "@ + seconds + "s  "@ + text::padded(
            text::decimal(step.interactions as nat),
            4,
        ) + "  "@ + step.outcome->Ok_0@,
        step.outcome is Err ==> step_row(step, seconds) == "✗"@ + " "@ + text::filled(step.id@, 9)
            + " "@ + text::filled(step.executor@, 13) + " "@ + seconds + "s  "@ + text::padded(
            text::decimal(step.interactions as nat),
            4,
        ) + "  "@ + first_line_of(step.outcome->Err_0@),
{
}

proof fn lemma_steps_report(steps: Seq<StepReport>, seconds: Seq<Seq<char>>, k: int, n: int)
    requires
        0 <= k < n <= steps.len(),
    ensures
        steps_report(steps, seconds, k).len() + step_report(steps[k], seconds[k]).len()
            <= steps_report(steps, seconds, n).len(),
        forall|i: int|
            0 <= i < step_report(steps[k], seconds[k]).len() ==> #[trigger] step_report(
                steps[k],
                seconds[k],
            )[i] == steps_report(steps, seconds, n)[steps_report(steps, seconds, k).len() + i],
    decreases n,
{
    if k < n - 1 {
        lemma_steps_report(steps, seconds, k, n - 1);
    }
}

/// A chain is shown by its heading, the rows of its steps one after another, an empty line and the
/// totals; that the rest was left out on purpose is said exactly where fewer than all steps passed
/// and none failed.
pub proof fn chains_are_shown_step_by_step(
    steps: Seq<StepReport>,
    seconds: Seq<Seq<char>>,
    total_seconds: Seq<char>,
)
    ensures
        ({
            let shown = chain_report(steps, seconds, total_seconds);
            let rows = steps_report(steps, seconds, steps.len() as int);
            let added = sums(steps, steps.len() as int);
            let on_purpose = added.3 < 7 && forall|i: int|
                0 <= i < steps.len() ==> (#[trigger] steps[i]).outcome is Ok;
            &&& shown.len() == rows.len() + 3 + (if on_purpose { 1int } else { 0 })
            &&& shown[0] == "STEP        EXECUTOR         TIME  CALL  RESULT"@
            &&& forall|i: int| 0 <= i < rows.len() ==> shown[1 + i] == #[trigger] rows[i]
            &&& shown[rows.len() as int + 1] == ""@
            &&& shown[rows.len() as int + 2] == text::decimal(added.3) + "/"@ + text::decimal(7)
                + " 步通过 · "@ + total_seconds + "s · tokens "@ + text::decimal(added.0)
                + " in / "@ + text::decimal(added.1) + " out"@
            &&& on_purpose ==> shown[rows.len() as int + 3] == "（其余步骤未运行：--stop-after）"@
        }),
        forall|k: int, i: int|
            0 <= k < steps.len() && 0 <= i < step_report(steps[k], seconds[k]).len()
                ==> #[trigger] step_report(steps[k], seconds[k])[i] == steps_report(
                steps,
                seconds,
                steps.len() as int,
            )[steps_report(steps, seconds, k).len() + i],
{
    assert(pipeline::default_agent_steps().len() == 7);
    let failed = exists|i: int| 0 <= i < steps.len() && (#[trigger] steps[i]).outcome is Err;
    if !failed {
        assert forall|i: int| 0 <= i < steps.len() implies (#[trigger] steps[i]).outcome is Ok by {
            assert(!(steps[i].outcome is Err));
        }
    }
    assert forall|k: int, i: int|
        0 <= k < steps.len() && 0 <= i < step_report(steps[k], seconds[k]).len() implies
        #[trigger] step_report(steps[k], seconds[k])[i] == steps_report(
        steps,
        seconds,
        steps.len() as int,
    )[steps_report(steps, seconds, k).len() + i] by {
        lemma_steps_report(steps, seconds, k, steps.len() as int);
    }
}

/// A probe shows each capability with its mark, the deadlines, and what came of the round trip; a
/// connection that was asked for stands before them, with its message where it has one.
pub proof fn probes_show_what_a_provider_can_do(
    c: ProviderCapability,
    v: Validation,
    turn: Turn,
    m: String,
)
    ensures
        capability_report(c).len() == 5,
        capability_report(c)[0] == (if c.chat_tools { "✓"@ } else { "✗"@ }) + " chat tools"@,
        capability_report(c)[1] == (if c.json_mode { "✓"@ } else { "✗"@ }) + " json mode"@,
        capability_report(c)[2] == (if c.streaming_cancellation { "✓"@ } else { "✗"@ })
            + " stream cancel"@,
        capability_report(c)[3] == (if c.media_url_output { "✓"@ } else { "✗"@ })
            + " media url output"@,
        capability_report(c)[4] == "  deadlines   chat "@ + text::decimal(c.chat_deadline_ms as nat)
            + "ms / flow step "@ + text::decimal(c.flow_step_deadline_ms as nat)
            + "ms / media fetch "@ + text::decimal(c.media_fetch_deadline_ms as nat) + "ms"@,
        validation_report(None) == Seq::<Seq<char>>::empty(),
        validation_report(Some(v)).len() == (if text::blank(v.message@) { 1int } else { 2 }),
        validation_report(Some(v))[0] == (if v.ok { "✓"@ } else { "✗"@ }) + " connect     "@
            + v.provider@ + " "@ + v.model@ + " @ "@ + (if text::blank(v.endpoint@) {
            "(provider default)"@
        } else {
            v.endpoint@
        }),
        !text::blank(v.message@) ==> validation_report(Some(v))[1] == "           "@ + v.message@,
        round_trip_report(None) == seq!["- live round-trip skipped (--offline)"@],
        round_trip_report(Some(Err(m))) == seq!["✗"@ + " live round-trip"@, "           "@ + m@],
        round_trip_report(Some(Ok(turn)))[0] == "✓"@ + " live round-trip"@,
        turn.tool_calls@.len() == 0 && turn.text is Some ==> round_trip_report(Some(Ok(turn))).len()
            == 2 && round_trip_report(Some(Ok(turn)))[1] == "           "@ + first_line_of(
            turn.text->0@,
        ),
        turn.tool_calls@.len() > 0 ==> round_trip_report(Some(Ok(turn)))[1]
            == "           tool calls: "@ + text::join_with(
            Seq::new(turn.tool_calls@.len(), |i: int| turn.tool_calls@[i].0@),
            ", "@,
        ),
{
    assert(tool_names(turn.tool_calls@) =~= Seq::new(
        turn.tool_calls@.len(),
        |i: int| turn.tool_calls@[i].0@,
    ));
}

/// An answer is shown by its text and then by its tool calls; one with neither says so.
pub proof fn answers_are_shown_with_their_calls(turn: Turn)
    ensures
        ({
            let shown = turn_report(turn);
            let n = turn.tool_calls@.len() as int;
            let t: int = if turn.text is Some { 1 } else { 0 };
            &&& t + n > 0 ==> shown.len() == t + n
            &&& t == 1 ==> shown[0] == turn.text->0@
            &&& forall|i: int|
                0 <= i < n ==> #[trigger] shown[t + i] == "→ "@ + turn.tool_calls@[i].0@ + "("@
                    + turn.tool_calls@[i].1@ + ")"@
            &&& t + n == 0 ==> shown == seq!["(the model returned neither text nor a tool call)"@]
        }),
{
    if turn.text is None && turn.tool_calls@.len() == 0 {
        assert(turn_report(turn) =~= seq!["(the model returned neither text nor a tool call)"@]);
    }
}

/// What an agent gave is shown by its name and time, its model, its downgrade, its warnings and then
/// the output itself.
pub proof fn agents_are_shown_with_their_output(
    kind: Seq<char>,
    output: AgentOutput,
    payload: Seq<char>,
    elapsed_ms: u64,
)
    ensures
        ({
            let shown = agent_report(kind, output, payload, elapsed_ms);
            let w = output.warnings@.len() as int;
            let m: int = if output.model is Some { 1 } else { 0 };
            let d: int = if output.downgrade is Some { 1 } else { 0 };
            &&& shown.len() == 3 + m + d + w
            &&& shown[0] == kind + " completed in "@ + text::decimal(elapsed_ms as nat) + "ms"@
            &&& m == 1 && output.prompt_tokens is Some && output.completion_tokens is Some ==> shown[1]
                == "model "@ + output.model->0@ + "  tokens "@ + text::decimal(
                output.prompt_tokens->0 as nat,
            ) + " in / "@ + text::decimal(output.completion_tokens->0 as nat) + " out"@
            &&& m == 1 && (output.prompt_tokens is None || output.completion_tokens is None)
                ==> shown[1] == "model "@ + output.model->0@
            &&& d == 1 ==> shown[1 + m] == "downgrade: "@ + output.downgrade->0@
            &&& forall|i: int|
                0 <= i < w ==> #[trigger] shown[1 + m + d + i] == "warning: "@
                    + output.warnings@[i]@
            &&& shown[1 + m + d + w] == ""@
            &&& shown[2 + m + d + w] == payload
        }),
{
    let w = text::texts(output.warnings@);
    assert(w.len() == output.warnings@.len());
    assert(forall|i: int| 0 <= i < w.len() ==> #[trigger] w[i] == output.warnings@[i]@);
}

/// The configurations are shown in the order chat, image, speech and music, each under its own label
/// and with its own endpoint, behind the three paths.
pub proof fn configurations_are_shown_in_order(
    chat: (ConfigView, Seq<char>),
    image: (ConfigView, Seq<char>),
    tts: (ConfigView, Seq<char>),
    music: (ConfigView, Seq<char>),
    dir: Seq<char>,
    log: Seq<char>,
    trace: Seq<char>,
)
    ensures
        ({
            let shown = config_report(chat, image, tts, music, dir, log, trace);
            &&& shown.len() == 8
            &&& shown[0] == "config dir   "@ + dir
            &&& shown[1] == "log          "@ + log
            &&& shown[2] == "agent trace  "@ + trace
            &&& shown[3] == ""@
            &&& shown[4] == provider_shown(
                "chat "@,
                chat.0.provider,
                chat.0.model,
                chat.0.api_key,
                chat.1,
            )
            &&& shown[5] == provider_shown(
                "image"@,
                image.0.provider,
                image.0.model,
                image.0.api_key,
                image.1,
            )
            &&& shown[6] == provider_shown(
                "tts  "@,
                tts.0.provider,
                tts.0.model,
                tts.0.api_key,
                tts.1,
            )
            &&& shown[7] == provider_shown(
                "music"@,
                music.0.provider,
                music.0.model,
                music.0.api_key,
                music.1,
            )
        }),
{
}

/// An entry of the log is shown by its mark, action, provider, model and the first line of its
/// message; and where JSON is asked for, nothing is shown to people.
pub proof fn log_entries_are_shown_in_one_row(e: LogEntry, lines: Seq<Seq<char>>)
    ensures
        log_row(e) == (if e.success { "✓"@ } else { "✗"@ }) + " "@ + text::filled(e.action@, 14)
            + " "@ + text::filled(e.provider@, 10) + " "@ + text::filled(e.model@, 24) + " "@
            + first_line_of(e.message@),
        for_people(true, lines) == Seq::<Seq<char>>::empty(),
        for_people(false, lines) == lines,
{
}

} // verus!
