//! The dialogue with a chat model: one request, and at most one repair of an
//! answer that broke its contract.
use vstd::prelude::*;

use crate::agents::AgentError;
use crate::text;

verus! {

broadcast use vstd::string::group_string_axioms;

/// What a chat model answered: its text, its name, and the tokens it counted
/// for the prompt and for the answer.
pub type ModelCompletion = (String, String, Option<u32>, Option<u32>);

/// A value parsed from a model's answer, with where it came from.
pub struct Routed<T> {
    pub value: T,
    pub model: String,
    pub prompt_tokens: Option<u32>,
    pub completion_tokens: Option<u32>,
}

/// The request that is to be sent to the chat model.
#[derive(Debug, Clone, PartialEq, Eq)]
pub struct Prompt {
    pub system: String,
    pub user: String,
}

// ---------------------------------------------------------------------------
// Messages
// ---------------------------------------------------------------------------

/// The message of a broken contract.
pub open spec fn violation(path: Seq<char>, message: Seq<char>) -> Seq<char> {
    "contract violation at "@ + path + ": "@ + message
}

pub fn contract_error(path: &str, message: &str) -> (r: AgentError)
    ensures
        r.0@ == violation(path@, message@),
{
    let mut s = text::copy("contract violation at ");
    s.append(path);
    s.append(": ");
    s.append(message);
    AgentError(s)
}

/// The path of the item at `index` of the list at `base`: `base[index]`.
pub open spec fn item_path(base: Seq<char>, index: int) -> Seq<char> {
    base + "["@ + text::decimal(index as nat) + "]"@
}

pub fn item_path_of(base: &str, index: usize) -> (r: String)
    ensures
        r@ == item_path(base@, index as int),
{
    let mut s = text::copy(base);
    s.append("[");
    s.append(text::decimal_of(index as u128).as_str());
    s.append("]");
    s
}

/// `head` followed by `tail`.
pub fn joined(head: &str, tail: &str) -> (r: String)
    ensures
        r@ == head@ + tail@,
{
    let mut s = text::copy(head);
    s.append(tail);
    s
}

/// The system prompt of the first request.
pub open spec fn system_prompt(role: Seq<char>, task: Seq<char>) -> Seq<char> {
    "你是 Ollaic 的 "@ + role + " Agent。"@ + task
        + "\n只输出一个符合要求的 JSON 对象，不要 Markdown，不要解释。"@
}

/// The system prompt of the repair request.
pub open spec fn repair_system_prompt(role: Seq<char>, task: Seq<char>) -> Seq<char> {
    "你是 Ollaic 的 JSON 修复器。原角色是 "@ + role + "，原任务是："@ + task
        + "\n根据校验错误修复响应，只输出一个完整 JSON 对象，不要 Markdown，不要解释。"@
}

/// The user prompt of the repair request.
pub open spec fn repair_user_prompt(context: Seq<char>, error: Seq<char>, answer: Seq<char>) -> Seq<
    char,
> {
    "原始任务上下文：\n"@ + context + "\n\n校验错误：\n"@ + error + "\n\n需要修复的响应：\n"@ + answer
}

fn model_failed(role: &str, error: &str) -> (r: AgentError)
    ensures
        r.0@ == role@ + " model failed: "@ + error@,
{
    let mut s = text::copy(role);
    s.append(" model failed: ");
    s.append(error);
    AgentError(s)
}

fn repair_failed(role: &str, error: &str) -> (r: AgentError)
    ensures
        r.0@ == role@ + " JSON repair failed: "@ + error@,
{
    let mut s = text::copy(role);
    s.append(" JSON repair failed: ");
    s.append(error);
    AgentError(s)
}

// ---------------------------------------------------------------------------
// Finding the JSON object in an answer
// ---------------------------------------------------------------------------

/// The position of the last `c`, or -1 where there is none.
pub open spec fn last_index_of(s: Seq<char>, c: char) -> int
    decreases s.len(),
{
    if s.len() == 0 {
        -1
    } else if s.last() == c {
        s.len() - 1
    } else {
        last_index_of(s.drop_last(), c)
    }
}

/// The text from the first `{` to the last `}`, both included.
pub open spec fn json_object_in(s: Seq<char>) -> Option<Seq<char>> {
    let start = text::index_of(s, '{');
    let end = last_index_of(s, '}');
    if start < s.len() && end >= start {
        Some(s.subrange(start, end + 1))
    } else {
        None
    }
}

proof fn lemma_last_index_of(s: Seq<char>, c: char, k: int)
    requires
        -1 <= k < s.len(),
        k >= 0 ==> s[k] == c,
        forall|j: int| k < j < s.len() ==> s[j] != c,
    ensures
        last_index_of(s, c) == k,
    decreases s.len(),
{
    if s.len() > 0 && s.last() != c {
        lemma_last_index_of(s.drop_last(), c, k);
    }
}

/// The JSON object that an answer holds, whatever stands around it.
pub fn extract_json(answer: &str) -> (r: Option<String>)
    ensures
        crate::story_plan::opt_text(r) == json_object_in(answer@),
{
    let v = text::chars_of(answer);
    let start = text::find_from(&v, 0, '{');
    proof {
        assert(v@.skip(0) =~= v@);
    }
    let mut end: usize = v.len();
    while end > 0 && v[end - 1] != '}'
        invariant
            end <= v.len(),
            forall|j: int| end <= j < v.len() ==> v@[j] != '}',
        decreases end,
    {
        end -= 1;
    }
    proof {
        lemma_last_index_of(v@, '}', end - 1);
    }
    if start < v.len() && end > start {
        Some(text::string_of_range(&v, start, end))
    } else {
        None
    }
}

// ---------------------------------------------------------------------------
// Control characters inside JSON strings
// ---------------------------------------------------------------------------

/// Where a reader of JSON text stands.
#[derive(Debug, Clone, Copy, PartialEq, Eq, Structural)]
pub enum JsonPlace {
    /// Outside every string.
    Outside,
    /// Inside a string.
    Inside,
    /// Inside a string, behind a backslash.
    AfterBackslash,
}

/// Where the reader stands after `c`.
pub open spec fn next_place(place: JsonPlace, c: char) -> JsonPlace {
    match place {
        JsonPlace::Outside => if c == '"' {
            JsonPlace::Inside
        } else {
            JsonPlace::Outside
        },
        JsonPlace::AfterBackslash => JsonPlace::Inside,
        JsonPlace::Inside => if c == '\\' {
            JsonPlace::AfterBackslash
        } else if c == '"' {
            JsonPlace::Outside
        } else {
            JsonPlace::Inside
        },
    }
}

/// Where the reader stands after all of `s`, from `place`.
pub open spec fn place_after(s: Seq<char>, place: JsonPlace) -> JsonPlace
    decreases s.len(),
{
    if s.len() == 0 {
        place
    } else {
        next_place(place_after(s.drop_last(), place), s.last())
    }
}

/// The four-digit escape of a control character.
pub open spec fn control_escape(c: char) -> Seq<char> {
    seq!['\\', 'u', '0', '0', text::digit(c as int / 16), text::digit(c as int % 16)]
}

/// What `c` becomes at `place`: a control character that stands unescaped
/// inside a string becomes its escape, all else stays.
pub open spec fn escaped_char(place: JsonPlace, c: char) -> Seq<char> {
    if place == JsonPlace::Inside && c <= '\u{1f}' {
        control_escape(c)
    } else {
        seq![c]
    }
}

/// The text with the control characters inside its strings escaped.
pub open spec fn controls_escaped(s: Seq<char>) -> Seq<char>
    decreases s.len(),
{
    if s.len() == 0 {
        Seq::empty()
    } else {
        controls_escaped(s.drop_last()) + escaped_char(
            place_after(s.drop_last(), JsonPlace::Outside),
            s.last(),
        )
    }
}

fn hex_digit(n: u8) -> (r: char)
    requires
        n < 16,
    ensures
        r == text::digit(n as int),
{
    if n < 10 {
        (48 + n) as char
    } else {
        (87 + n) as char
    }
}

fn push_control_escape(out: &mut String, c: char)
    requires
        c <= '\u{1f}',
    ensures
        final(out)@ == old(out)@ + control_escape(c),
{
    let n: u8 = c as u8;
    out.push('\\');
    out.push('u');
    out.push('0');
    out.push('0');
    out.push(hex_digit(n / 16));
    out.push(hex_digit(n % 16));
    assert(out@ =~= old(out)@ + control_escape(c));
}

/// Escapes the control characters that stand raw inside JSON strings.
pub fn escape_string_control_characters(json: &str) -> (r: String)
    ensures
        r@ == controls_escaped(json@),
{
    let v = text::chars_of(json);
    let mut out = String::new();
    let mut place = JsonPlace::Outside;
    let mut i: usize = 0;
    while i < v.len()
        invariant
            i <= v.len(),
            v@ == json@,
            place == place_after(json@.take(i as int), JsonPlace::Outside),
            out@ == controls_escaped(json@.take(i as int)),
        decreases v.len() - i,
    {
        let c = v[i];
        let ghost before = out@;
        proof {
            let t = json@.take(i + 1);
            assert(t.drop_last() =~= json@.take(i as int));
            assert(t.last() == c);
        }
        match place {
            JsonPlace::Outside => {
                out.push(c);
                if c == '"' {
                    place = JsonPlace::Inside;
                }
            },
            JsonPlace::AfterBackslash => {
                out.push(c);
                place = JsonPlace::Inside;
            },
            JsonPlace::Inside => {
                if c == '\\' {
                    out.push(c);
                    place = JsonPlace::AfterBackslash;
                } else if c == '"' {
                    out.push(c);
                    place = JsonPlace::Outside;
                } else if c <= '\u{1f}' {
                    push_control_escape(&mut out, c);
                } else {
                    out.push(c);
                }
            },
        }
        assert(out@ =~= before + escaped_char(
            place_after(json@.take(i as int), JsonPlace::Outside),
            c,
        ));
        i += 1;
    }
    assert(json@.take(json@.len() as int) =~= json@);
    out
}

/// Whether a raw control character stands inside a string of `s`, other than
/// behind a backslash.
pub open spec fn raw_control_at(s: Seq<char>, i: int) -> bool {
    0 <= i < s.len() && s[i] <= '\u{1f}' && place_after(s.take(i), JsonPlace::Outside)
        == JsonPlace::Inside
}

proof fn lemma_place_concat(a: Seq<char>, b: Seq<char>, p: JsonPlace)
    ensures
        place_after(a + b, p) == place_after(b, place_after(a, p)),
    decreases b.len(),
{
    if b.len() == 0 {
        assert(a + b =~= a);
    } else {
        assert((a + b).drop_last() =~= a + b.drop_last());
        lemma_place_concat(a, b.drop_last(), p);
    }
}

proof fn lemma_escape_keeps_place(c: char)
    requires
        c <= '\u{1f}',
    ensures
        place_after(control_escape(c), JsonPlace::Inside) == JsonPlace::Inside,
        forall|k: int| 0 <= k < 6 ==> control_escape(c)[k] > '\u{1f}',
{
    let e = control_escape(c);
    reveal_with_fuel(place_after, 7);
    assert(e.drop_last() =~= seq!['\\', 'u', '0', '0', e[4]]);
    assert(e.drop_last().drop_last() =~= seq!['\\', 'u', '0', '0']);
    assert(e.drop_last().drop_last().drop_last() =~= seq!['\\', 'u', '0']);
    assert(e.drop_last().drop_last().drop_last().drop_last() =~= seq!['\\', 'u']);
    assert(e.drop_last().drop_last().drop_last().drop_last().drop_last() =~= seq!['\\']);
    assert(e.drop_last().drop_last().drop_last().drop_last().drop_last().drop_last() =~= Seq::<
        char,
    >::empty());
}

/// Escaping leaves the reader in the same place, and leaves no raw control
/// character inside a string other than behind a backslash.
pub proof fn escaping_removes_raw_controls(s: Seq<char>)
    ensures
        place_after(controls_escaped(s), JsonPlace::Outside) == place_after(s, JsonPlace::Outside),
        forall|i: int| !raw_control_at(controls_escaped(s), i),
    decreases s.len(),
{
    if s.len() > 0 {
        let t = s.drop_last();
        let c = s.last();
        escaping_removes_raw_controls(t);
        let p = place_after(t, JsonPlace::Outside);
        let e = escaped_char(p, c);
        let old_out = controls_escaped(t);
        let out = controls_escaped(s);
        lemma_place_concat(old_out, e, JsonPlace::Outside);
        if p == JsonPlace::Inside && c <= '\u{1f}' {
            lemma_escape_keeps_place(c);
        } else {
            reveal_with_fuel(place_after, 2);
            assert(seq![c].drop_last() =~= Seq::<char>::empty());
        }
        assert forall|i: int| !raw_control_at(out, i) by {
            if raw_control_at(out, i) {
                if i < old_out.len() {
                    assert(out.take(i) =~= old_out.take(i));
                    assert(raw_control_at(old_out, i));
                } else if e.len() == 1 {
                    assert(out.take(i) =~= old_out);
                }
            }
        }
    }
}

/// A text without raw control characters inside its strings is not changed.
pub proof fn escaping_keeps_clean_json(s: Seq<char>)
    requires
        forall|i: int| !raw_control_at(s, i),
    ensures
        controls_escaped(s) == s,
    decreases s.len(),
{
    if s.len() > 0 {
        let t = s.drop_last();
        assert forall|i: int| !raw_control_at(t, i) by {
            if raw_control_at(t, i) {
                assert(s.take(i) =~= t.take(i));
                assert(raw_control_at(s, i));
            }
        }
        escaping_keeps_clean_json(t);
        assert(!raw_control_at(s, s.len() - 1));
        assert(s.take(s.len() - 1) =~= t);
        assert(t + seq![s.last()] =~= s);
    } else {
        assert(controls_escaped(s) =~= s);
    }
}

/// The two texts to hand to a JSON parser, the second only where the first is
/// refused: the object as it stands in the answer, and the same with its
/// control characters escaped.
pub fn json_candidates(role: &str, answer: &str) -> (r: Result<(String, String), AgentError>)
    ensures
        match r {
            Ok(pair) => json_object_in(answer@) == Some(pair.0@) && pair.1@ == controls_escaped(
                pair.0@,
            ),
            Err(e) => json_object_in(answer@) is None && e.0@ == role@ + " returned no JSON object"@,
        },
{
    match extract_json(answer) {
        Some(json) => {
            let escaped = escape_string_control_characters(json.as_str());
            Ok((json, escaped))
        },
        None => Err(AgentError(joined(role, " returned no JSON object"))),
    }
}

/// The outcome of parsing those texts, with the parser's own message put in
/// the agent's words.
pub fn parse_outcome<T>(role: &str, parsed: Result<T, String>) -> (r: Result<T, AgentError>)
    ensures
        match (r, parsed) {
            (Ok(a), Ok(b)) => a == b,
            (Err(e), Err(m)) => e.0@ == role@ + " returned JSON with an invalid structure: "@ + m@,
            _ => false,
        },
{
    match parsed {
        Ok(value) => Ok(value),
        Err(message) => {
            let mut s = text::copy(role);
            s.append(" returned JSON with an invalid structure: ");
            s.append(message.as_str());
            Err(AgentError(s))
        },
    }
}

// ---------------------------------------------------------------------------
// The conversation
// ---------------------------------------------------------------------------

/// What is asked of the model, and on whose behalf.
#[derive(Debug, Clone, PartialEq, Eq)]
pub struct ModelTask {
    pub role: String,
    pub task: String,
    /// The context, as pretty-printed JSON.
    pub context: String,
    /// Whether the run may go on without a model.
    pub allow_local_fallback: bool,
}

/// How far the conversation has come.
pub enum Conversation<T> {
    /// The first request is to be sent.
    First,
    /// The first answer broke its contract; its repair is to be asked for.
    Repair { first: ModelCompletion, error: AgentError },
    /// Nothing more is to be sent. `Ok(None)` stands for an approved run
    /// without a model.
    Done(Result<Option<Routed<T>>, AgentError>),
}

/// What came back for the last request.
pub enum ModelEvent<T> {
    /// The call failed.
    Failed(String),
    /// No chat model is configured.
    Unavailable,
    /// The model answered; `verdict` is its answer parsed and validated.
    Answered { completion: ModelCompletion, verdict: Result<T, AgentError> },
}

/// Tokens of two calls together, where both were counted.
pub open spec fn token_sum(a: Option<u32>, b: Option<u32>) -> Option<u32> {
    match (a, b) {
        (Some(x), Some(y)) => Some(if x + y <= u32::MAX { (x + y) as u32 } else { u32::MAX }),
        _ => None,
    }
}

fn sum_tokens(a: Option<u32>, b: Option<u32>) -> (r: Option<u32>)
    ensures
        r == token_sum(a, b),
{
    match (a, b) {
        (Some(x), Some(y)) => Some(x.saturating_add(y)),
        _ => None,
    }
}

/// The request that the conversation is waiting to have answered.
pub fn prompt<T>(task: &ModelTask, at: &Conversation<T>) -> (r: Option<Prompt>)
    ensures
        match (*at, r) {
            (Conversation::First, Some(p)) => p.system@ == system_prompt(task.role@, task.task@)
                && p.user@ == task.context@,
            (Conversation::Repair { first, error }, Some(p)) => p.system@ == repair_system_prompt(
                task.role@,
                task.task@,
            ) && p.user@ == repair_user_prompt(task.context@, error.0@, first.0@),
            (Conversation::Done(_), None) => true,
            _ => false,
        },
{
    match at {
        Conversation::First => {
            let mut s = text::copy("你是 Ollaic 的 ");
            s.append(task.role.as_str());
            s.append(" Agent。");
            s.append(task.task.as_str());
            s.append("\n只输出一个符合要求的 JSON 对象，不要 Markdown，不要解释。");
            Some(Prompt { system: s, user: task.context.clone() })
        },
        Conversation::Repair { first, error } => {
            let mut s = text::copy("你是 Ollaic 的 JSON 修复器。原角色是 ");
            s.append(task.role.as_str());
            s.append("，原任务是：");
            s.append(task.task.as_str());
            s.append("\n根据校验错误修复响应，只输出一个完整 JSON 对象，不要 Markdown，不要解释。");
            let mut u = text::copy("原始任务上下文：\n");
            u.append(task.context.as_str());
            u.append("\n\n校验错误：\n");
            u.append(error.0.as_str());
            u.append("\n\n需要修复的响应：\n");
            u.append(first.0.as_str());
            Some(Prompt { system: s, user: u })
        },
        Conversation::Done(_) => None,
    }
}

/// Whether `next` is where the conversation goes from `at` on `event`.
pub open spec fn advances<T>(
    task: ModelTask,
    at: Conversation<T>,
    event: ModelEvent<T>,
    next: Conversation<T>,
) -> bool {
    match at {
        Conversation::First => match event {
            ModelEvent::Failed(message) => next matches Conversation::Done(Err(e)) && e.0@
                == task.role@ + " model failed: "@ + message@,
            ModelEvent::Unavailable => if task.allow_local_fallback {
                next matches Conversation::Done(Ok(None))
            } else {
                next matches Conversation::Done(Err(e)) && e.0@ == task.role@
                    + " requires a configured chat model; this run did not approve local fallback"@
            },
            ModelEvent::Answered { completion, verdict } => match verdict {
                Ok(value) => next == Conversation::<T>::Done(
                    Ok(
                        Some(
                            Routed {
                                value,
                                model: completion.1,
                                prompt_tokens: completion.2,
                                completion_tokens: completion.3,
                            },
                        ),
                    ),
                ),
                Err(error) => next == (Conversation::<T>::Repair { first: completion, error }),
            },
        },
        Conversation::Repair { first, error } => match event {
            ModelEvent::Failed(message) => next matches Conversation::Done(Err(e)) && e.0@
                == task.role@ + " JSON repair failed: "@ + message@,
            ModelEvent::Unavailable => next == Conversation::<T>::Done(Err(error)),
            ModelEvent::Answered { completion, verdict } => match verdict {
                Ok(value) => next == Conversation::<T>::Done(
                    Ok(
                        Some(
                            Routed {
                                value,
                                model: completion.1,
                                prompt_tokens: token_sum(first.2, completion.2),
                                completion_tokens: token_sum(first.3, completion.3),
                            },
                        ),
                    ),
                ),
                Err(second) => next matches Conversation::Done(Err(e)) && e.0@ == error.0@
                    + "; automatic repair also failed: "@ + second.0@,
            },
        },
        Conversation::Done(_) => next == at,
    }
}

/// Takes the conversation one step further.
pub fn advance<T>(task: &ModelTask, at: Conversation<T>, event: ModelEvent<T>) -> (r: Conversation<T>)
    ensures
        advances(*task, at, event, r),
{
    match at {
        Conversation::First => match event {
            ModelEvent::Failed(message) => Conversation::Done(
                Err(model_failed(task.role.as_str(), message.as_str())),
            ),
            ModelEvent::Unavailable => if task.allow_local_fallback {
                Conversation::Done(Ok(None))
            } else {
                Conversation::Done(
                    Err(
                        AgentError(
                            joined(
                                task.role.as_str(),
                                " requires a configured chat model; this run did not approve local fallback",
                            ),
                        ),
                    ),
                )
            },
            ModelEvent::Answered { completion, verdict } => match verdict {
                Ok(value) => Conversation::Done(
                    Ok(
                        Some(
                            Routed {
                                value,
                                model: completion.1,
                                prompt_tokens: completion.2,
                                completion_tokens: completion.3,
                            },
                        ),
                    ),
                ),
                Err(error) => Conversation::Repair { first: completion, error },
            },
        },
        Conversation::Repair { first, error } => match event {
            ModelEvent::Failed(message) => Conversation::Done(
                Err(repair_failed(task.role.as_str(), message.as_str())),
            ),
            ModelEvent::Unavailable => Conversation::Done(Err(error)),
            ModelEvent::Answered { completion, verdict } => match verdict {
                Ok(value) => Conversation::Done(
                    Ok(
                        Some(
                            Routed {
                                value,
                                model: completion.1,
                                prompt_tokens: sum_tokens(first.2, completion.2),
                                completion_tokens: sum_tokens(first.3, completion.3),
                            },
                        ),
                    ),
                ),
                Err(second) => {
                    let mut s = error.0;
                    s.append("; automatic repair also failed: ");
                    s.append(second.0.as_str());
                    Conversation::Done(Err(AgentError(s)))
                },
            },
        },
        Conversation::Done(result) => Conversation::Done(result),
    }
}

/// A model is asked at most twice: after two events the conversation is over,
/// and once over it stays as it is.
pub proof fn at_most_one_repair<T>(
    task: ModelTask,
    first: ModelEvent<T>,
    middle: Conversation<T>,
    second: ModelEvent<T>,
    end: Conversation<T>,
)
    requires
        advances(task, Conversation::First, first, middle),
        advances(task, middle, second, end),
    ensures
        end is Done,
        middle is Done ==> end == middle,
{
}

/// Only an answer whose verdict is good ends the conversation with a value,
/// and then with that value.
pub proof fn only_validated_values_are_routed<T>(
    task: ModelTask,
    at: Conversation<T>,
    event: ModelEvent<T>,
    next: Conversation<T>,
)
    requires
        !(at is Done),
        advances(task, at, event, next),
    ensures
        next matches Conversation::Done(Ok(Some(routed))) ==> event matches ModelEvent::Answered {
            completion,
            verdict: Ok(value),
        } && routed.value == value && routed.model == completion.1,
{
}

/// A run that did not approve the local fallback never ends without a model's
/// value and without an error.
pub proof fn fallback_needs_approval<T>(
    task: ModelTask,
    at: Conversation<T>,
    event: ModelEvent<T>,
    next: Conversation<T>,
)
    requires
        !(at is Done),
        !task.allow_local_fallback,
        advances(task, at, event, next),
    ensures
        !(next matches Conversation::Done(Ok(None))),
{
}

// ---------------------------------------------------------------------------
// What is found in an answer
// ---------------------------------------------------------------------------

/// The object in an answer is the piece from its first opening brace to its last closing
/// one: nothing before it opens and nothing after it closes an object. There is none
/// only where no opening brace has a closing one after it.
pub proof fn objects_reach_from_the_first_to_the_last_brace(s: Seq<char>)
    ensures
        match json_object_in(s) {
            Some(j) => exists|a: int, b: int|
                0 <= a < b <= s.len() && j == #[trigger] s.subrange(a, b) && s[a] == '{' && s[b - 1]
                    == '}' && (forall|i: int| 0 <= i < a ==> s[i] != '{') && (forall|i: int|
                    b <= i < s.len() ==> s[i] != '}'),
            None => forall|a: int, b: int|
                0 <= a < b < s.len() ==> !(#[trigger] s[a] == '{' && #[trigger] s[b] == '}'),
        },
{
    text::lemma_index_of(s, '{');
    lemma_last_index(s, '}');
    let a = text::index_of(s, '{');
    let b = last_index_of(s, '}');
    if a < s.len() && b >= a {
        assert(s[b] == '}');
        assert(s.subrange(a, b + 1) == json_object_in(s)->0);
    } else {
        assert forall|i: int, k: int| 0 <= i < k < s.len() implies !(#[trigger] s[i] == '{'
            && #[trigger] s[k] == '}') by {
            if s[i] == '{' {
                assert(s.contains(s[i]));
            }
        }
    }
}

proof fn lemma_last_index(s: Seq<char>, c: char)
    ensures
        -1 <= last_index_of(s, c) < s.len(),
        last_index_of(s, c) >= 0 ==> s[last_index_of(s, c)] == c,
        forall|i: int| last_index_of(s, c) < i < s.len() ==> s[i] != c,
    decreases s.len(),
{
    if s.len() > 0 && s.last() != c {
        lemma_last_index(s.drop_last(), c);
        assert forall|i: int| last_index_of(s, c) < i < s.len() implies s[i] != c by {
            if i < s.len() - 1 {
                assert(s.drop_last()[i] == s[i]);
            }
        }
    }
}

/// An object comes back whole, whatever objects stand inside it and whatever is said
/// around it, as long as nothing before it opens a brace and nothing behind it closes
/// one.
pub proof fn objects_come_back_whole(before: Seq<char>, object: Seq<char>, behind: Seq<char>)
    requires
        object.len() >= 2,
        object[0] == '{',
        object.last() == '}',
        forall|i: int| 0 <= i < before.len() ==> before[i] != '{',
        forall|i: int| 0 <= i < behind.len() ==> behind[i] != '}',
    ensures
        json_object_in(before + object + behind) == Some(object),
{
    let s = before + object + behind;
    let start = before.len() as int;
    let end = before.len() + object.len() - 1;
    assert(s[start] == '{');
    assert(s[end] == object[object.len() - 1]);
    text::lemma_index_of_unique(s, '{', start);
    lemma_last_index_of(s, '}', end);
    assert(s.subrange(start, end + 1) =~= object);
}

/// Inside the strings of an answer each raw control character is written as its code,
/// and every other character, inside or outside, is kept as it is.
pub proof fn escapes_are_the_codes_of_their_characters(s: Seq<char>, c: char)
    ensures
        controls_escaped(Seq::empty()) == Seq::<char>::empty(),
        ({
            let before = controls_escaped(s);
            let after = controls_escaped(s.push(c));
            let inside = place_after(s, JsonPlace::Outside) == JsonPlace::Inside;
            if inside && (c as u32) < 32 {
                &&& after.len() == before.len() + 6
                &&& after.take(before.len() as int) == before
                &&& after.subrange(before.len() as int, (before.len() + 4) as int) == seq![
                    '\\',
                    'u',
                    '0',
                    '0',
                ]
                &&& text::hex_value(after[(before.len() + 4) as int]) * 16 + text::hex_value(
                    after[(before.len() + 5) as int],
                ) == c as int
            } else {
                after == before.push(c)
            }
        }),
{
    assert(s.push(c).drop_last() =~= s);
    let before = controls_escaped(s);
    let after = controls_escaped(s.push(c));
    if place_after(s, JsonPlace::Outside) == JsonPlace::Inside && (c as u32) < 32 {
        assert(after.take(before.len() as int) =~= before);
        assert(after.subrange(before.len() as int, (before.len() + 4) as int) =~= seq!['\\', 'u', '0', '0']);
    } else {
        assert(after =~= before.push(c));
    }
}

/// A quote opens a string outside of one and closes it inside, unless a backslash stands
/// right before it there; nothing else does either.
pub proof fn strings_are_opened_and_closed_by_quotes(s: Seq<char>, c: char)
    ensures
        ({
            let before = place_after(s, JsonPlace::Outside);
            let after = place_after(s.push(c), JsonPlace::Outside);
            &&& place_after(Seq::empty(), JsonPlace::Outside) == JsonPlace::Outside
            &&& before == JsonPlace::Outside ==> (after == JsonPlace::Inside <==> c == '"') && (after
                == JsonPlace::Outside <==> c != '"')
            &&& before == JsonPlace::Inside ==> (after == JsonPlace::Outside <==> c == '"') && (after
                == JsonPlace::AfterBackslash <==> c == '\\')
            &&& before == JsonPlace::AfterBackslash ==> after == JsonPlace::Inside
        }),
{
    assert(s.push(c).drop_last() =~= s);
}

/// An answer that keeps its contract ends the conversation with its value and with what
/// it cost; one that does not is sent back with its fault. A repaired answer costs what
/// both answers cost together, where both are known, and a second fault ends the
/// conversation with both of them.
pub proof fn answers_are_taken_or_sent_back<T>(
    task: ModelTask,
    first: (String, String, Option<u32>, Option<u32>),
    again: (String, String, Option<u32>, Option<u32>),
    value: T,
    fault: crate::agents::AgentError,
    second: crate::agents::AgentError,
    next: Conversation<T>,
)
    ensures
        advances(
            task,
            Conversation::First,
            ModelEvent::Answered { completion: first, verdict: Ok(value) },
            next,
        ) ==> (next matches Conversation::Done(Ok(Some(r))) && r.value == value && r.model
            == first.1 && r.prompt_tokens == first.2 && r.completion_tokens == first.3),
        advances(
            task,
            Conversation::First,
            ModelEvent::Answered { completion: first, verdict: Err(fault) },
            next,
        ) ==> next == (Conversation::<T>::Repair { first, error: fault }),
        advances(
            task,
            Conversation::Repair { first, error: fault },
            ModelEvent::Answered { completion: again, verdict: Ok(value) },
            next,
        ) ==> {
            &&& next matches Conversation::Done(Ok(Some(r)))
            &&& r.value == value && r.model == again.1
            &&& r.prompt_tokens is Some <==> first.2 is Some && again.2 is Some
            &&& r.prompt_tokens is Some && first.2->0 + again.2->0 <= u32::MAX
                ==> r.prompt_tokens->0 == first.2->0 + again.2->0
            &&& r.prompt_tokens is Some && first.2->0 + again.2->0 > u32::MAX
                ==> r.prompt_tokens->0 == u32::MAX
            &&& r.completion_tokens is Some <==> first.3 is Some && again.3 is Some
            &&& r.completion_tokens is Some && first.3->0 + again.3->0 <= u32::MAX
                ==> r.completion_tokens->0 == first.3->0 + again.3->0
        },
        advances(
            task,
            Conversation::Repair { first, error: fault },
            ModelEvent::Answered { completion: again, verdict: Err(second) },
            next,
        ) ==> (next matches Conversation::Done(Err(e)) && text::begins(e.0@, fault.0@)
            && text::ends(e.0@, second.0@)),
{
    let middle = "; automatic repair also failed: "@;
    text::parts_of_a_text_are_found(
        fault.0@ + middle,
        second.0@,
        Seq::empty(),
        second.0@,
    );
    assert(fault.0@ + middle + second.0@ =~= fault.0@ + (middle + second.0@));
    text::parts_of_a_text_are_found(Seq::empty(), fault.0@, middle + second.0@, second.0@);
}

/// A model is told its role and its task, and one that repairs also what the task was
/// about, what is wrong with the answer, and the answer.
pub proof fn prompts_hold_what_they_are_about(
    role: Seq<char>,
    task: Seq<char>,
    context: Seq<char>,
    error: Seq<char>,
    answer: Seq<char>,
)
    ensures
        text::occurs(system_prompt(role, task), role),
        text::occurs(system_prompt(role, task), task),
        text::occurs(repair_system_prompt(role, task), role),
        text::occurs(repair_system_prompt(role, task), task),
        text::occurs(repair_user_prompt(context, error, answer), context),
        text::occurs(repair_user_prompt(context, error, answer), error),
        text::ends(repair_user_prompt(context, error, answer), answer),
{
    lemma_in_order("你是 Ollaic 的 "@, role, " Agent。"@, task,
        "\n只输出一个符合要求的 JSON 对象，不要 Markdown，不要解释。"@);
    lemma_in_order(
        "你是 Ollaic 的 JSON 修复器。原角色是 "@,
        role,
        "，原任务是："@,
        task,
        "\n根据校验错误修复响应，只输出一个完整 JSON 对象，不要 Markdown，不要解释。"@,
    );
    let end = "\n\n需要修复的响应：\n"@ + answer;
    lemma_in_order("原始任务上下文：\n"@, context, "\n\n校验错误：\n"@, error, end);
    let head = "原始任务上下文：\n"@ + context + "\n\n校验错误：\n"@ + error;
    assert(repair_user_prompt(context, error, answer) =~= head + end);
    assert(repair_user_prompt(context, error, answer) =~= (head
        + "\n\n需要修复的响应：\n"@) + answer);
    text::parts_of_a_text_are_found(
        head + "\n\n需要修复的响应：\n"@,
        answer,
        Seq::empty(),
        answer,
    );
}

proof fn lemma_in_order(a: Seq<char>, x: Seq<char>, b: Seq<char>, y: Seq<char>, c: Seq<char>)
    ensures
        text::occurs(a + x + b + y + c, x),
        text::occurs(a + x + b + y + c, y),
{
    assert(a + x + b + y + c =~= a + x + (b + y + c));
    text::parts_of_a_text_are_found(a, x, b + y + c, x);
    text::parts_of_a_text_are_found(a + x + b, y, c, y);
}

/// A violated contract is named by its place and what is wrong there, and different
/// items of a list have different places.
pub proof fn violations_name_their_place(
    path: Seq<char>,
    message: Seq<char>,
    i: nat,
    j: nat,
)
    ensures
        text::occurs(violation(path, message), path),
        text::ends(violation(path, message), message),
        text::begins(item_path(path, i as int), path),
        i != j ==> item_path(path, i as int) != item_path(path, j as int),
{
    text::parts_of_a_text_are_found("contract violation at "@, path, ": "@ + message, path);
    assert("contract violation at "@ + path + ": "@ + message =~= "contract violation at "@ + path
        + (": "@ + message));
    text::parts_of_a_text_are_found(
        "contract violation at "@ + path + ": "@,
        message,
        Seq::empty(),
        message,
    );
    let d = text::decimal(i);
    let e = text::decimal(j);
    assert(path + "["@ + d + "]"@ =~= path + ("["@ + d + "]"@));
    text::parts_of_a_text_are_found(Seq::empty(), path, "["@ + d + "]"@, path);
    if i != j && item_path(path, i as int) == item_path(path, j as int) {
        reveal_strlit("[");
        reveal_strlit("]");
        let s = path + "["@ + d + "]"@;
        let t = path + "["@ + e + "]"@;
        assert(s.len() == t.len());
        assert(s.subrange((path.len() + 1) as int, s.len() - 1) =~= d);
        assert(t.subrange((path.len() + 1) as int, t.len() - 1) =~= e);
        text::decimals_can_be_read(i);
        text::decimals_can_be_read(j);
    }
}

} // verus!
