//! The decisions around asking the AI service: when to try again and how long to
//! wait, how to read the label and the fenced answer it returns, and the verdict
//! that stands for a failure.
use vstd::prelude::*;
use crate::htaccess::{split_char, split_chars, vec_views};
use crate::model::{AIModel, AIVerdict, Verdict};
use crate::text::{
    byte_truncated, chars_of, copy_str, cuts_cleanly, join_seq, str_eq, str_starts_with, string_of, to_lower,
    trim_chars, trim_seq, trim_str, truncate, unicode_lower,
};

verus! {

/// How many times the service is asked at most.
pub const MAX_RETRIES: u32 = 5;

/// What one attempt to ask the service brought.
#[derive(Debug, Clone, Copy, PartialEq, Eq, Structural)]
pub enum Event {
    /// The request did not reach the service or no answer came back.
    TransportFailed,
    /// The service answered with this HTTP status.
    Answered(u16),
}

/// What to do after an attempt.
#[derive(Debug, Clone, Copy, PartialEq, Eq, Structural)]
pub enum Action {
    /// Wait this many seconds, then try again.
    RetryAfter(u64),
    /// Give up: the request itself failed.
    RequestFailed,
    /// Give up: the service refused the request.
    ApiError,
    /// Read the answer.
    ReadAnswer,
}

/// Whether a key for the service is configured: it is not empty.
pub fn key_configured(api_key: &str) -> (b: bool)
    ensures
        b == (api_key@.len() > 0),
{
    !api_key.is_empty()
}

/// The wait before the next attempt: one second, doubled after each attempt.
pub open spec fn backoff(attempt: nat) -> nat
    decreases attempt,
{
    if attempt == 0 {
        1
    } else {
        2 * backoff((attempt - 1) as nat)
    }
}

pub fn backoff_secs(attempt: u32) -> (s: u64)
    requires
        attempt < MAX_RETRIES,
    ensures
        s == backoff(attempt as nat),
{
    proof {
        reveal_with_fuel(backoff, 5);
    }
    match attempt {
        0 => 1,
        1 => 2,
        2 => 4,
        3 => 8,
        _ => 16,
    }
}

/// The service is busy (429) or failed (5xx): worth another try.
pub open spec fn is_transient(code: u16) -> bool {
    code == 429 || (500 <= code && code < 600)
}

/// A 2xx status.
pub open spec fn is_success(code: u16) -> bool {
    200 <= code && code < 300
}

/// The decision after attempt number `attempt` (counting from 0).
pub open spec fn next_action(attempt: u32, ev: Event) -> Action {
    match ev {
        Event::TransportFailed => if attempt + 1 < MAX_RETRIES {
            Action::RetryAfter(backoff(attempt as nat) as u64)
        } else {
            Action::RequestFailed
        },
        Event::Answered(code) => if is_transient(code) {
            Action::RetryAfter(backoff(attempt as nat) as u64)
        } else if !is_success(code) {
            Action::ApiError
        } else {
            Action::ReadAnswer
        },
    }
}

pub fn step(attempt: u32, ev: &Event) -> (a: Action)
    requires
        attempt < MAX_RETRIES,
    ensures
        a == next_action(attempt, *ev),
{
    match ev {
        Event::TransportFailed => {
            if attempt + 1 < MAX_RETRIES {
                Action::RetryAfter(backoff_secs(attempt))
            } else {
                Action::RequestFailed
            }
        },
        Event::Answered(code) => {
            let c = *code;
            if c == 429 || (500 <= c && c < 600) {
                Action::RetryAfter(backoff_secs(attempt))
            } else if !(200 <= c && c < 300) {
                Action::ApiError
            } else {
                Action::ReadAnswer
            }
        },
    }
}

/// A transport failure on the last attempt gives up at once; every wait lies
/// between one and sixteen seconds and doubles from one attempt to the next.
pub proof fn law_retry_bounds(attempt: u32)
    requires
        attempt < MAX_RETRIES,
    ensures
        next_action((MAX_RETRIES - 1) as u32, Event::TransportFailed) == Action::RequestFailed,
        1 <= backoff(attempt as nat) <= 16,
        attempt + 1 < MAX_RETRIES ==> backoff((attempt + 1) as nat) == 2 * backoff(attempt as nat),
{
    reveal_with_fuel(backoff, 6);
    assert(backoff(0) == 1);
    assert(backoff(1) == 2);
    assert(backoff(2) == 4);
    assert(backoff(3) == 8);
    assert(backoff(4) == 16);
}

/// The verdict that stands for a failed analysis: suspicious, with the message as
/// its reasoning and its error.
pub open spec fn error_model(msg: Seq<char>) -> AIModel {
    AIModel {
        verdict: Verdict::Suspicious,
        threat_type: "analysis_error"@,
        indicators: Seq::empty(),
        reasoning: msg,
        error: msg,
    }
}

pub fn error_verdict(msg: &str) -> (v: AIVerdict)
    ensures
        v@ == error_model(msg@),
{
    let v = AIVerdict {
        verdict: Verdict::Suspicious,
        threat_type: copy_str("analysis_error"),
        indicators: Vec::new(),
        reasoning: copy_str(msg),
        error: copy_str(msg),
    };
    assert(v@ =~= error_model(msg@));
    v
}

/// The verdict when no key for the service is configured.
pub fn unconfigured_verdict() -> (v: AIVerdict)
    ensures
        v@ == error_model("FIREWORKS_API_KEY not configured"@),
{
    error_verdict("FIREWORKS_API_KEY not configured")
}

/// The last error before any attempt has failed.
pub fn no_error_yet() -> (e: String)
    ensures
        e@ == "unknown error"@,
{
    copy_str("unknown error")
}

/// The error an answer that asks to try again leaves behind: its status (as the
/// HTTP library writes it) and the first 200 bytes of its body.
pub fn retry_error(status: &str, body: &str) -> (e: String)
    requires
        cuts_cleanly(body@, 200),
    ensures
        e@ == "HTTP "@ + status@ + ": "@ + byte_truncated(body@, 200),
{
    let head = crate::text::concat3("HTTP ", status, ": ");
    let cut = truncate(body, 200);
    crate::text::concat2(head.as_str(), cut.as_str())
}

/// The verdict when the request itself failed, with the last error.
pub fn request_failed_verdict(last_err: &str) -> (v: AIVerdict)
    ensures
        v@ == error_model("request failed: "@ + last_err@),
{
    let msg = crate::text::concat2("request failed: ", last_err);
    error_verdict(msg.as_str())
}

/// The verdict when the service refused the request: its status and the first 300
/// bytes of its body.
pub fn api_error_verdict(status: &str, body: &str) -> (v: AIVerdict)
    requires
        cuts_cleanly(body@, 300),
    ensures
        v@ == error_model("API error HTTP "@ + status@ + ": "@ + byte_truncated(body@, 300)),
{
    let head = crate::text::concat3("API error HTTP ", status, ": ");
    let cut = truncate(body, 300);
    let msg = crate::text::concat2(head.as_str(), cut.as_str());
    error_verdict(msg.as_str())
}

/// The verdict when every attempt asked to try again, with the last error.
pub fn retries_exhausted_verdict(last_err: &str) -> (v: AIVerdict)
    ensures
        v@ == error_model("max retries exceeded: "@ + last_err@),
{
    let msg = crate::text::concat2("max retries exceeded: ", last_err);
    error_verdict(msg.as_str())
}

/// The verdict a label names: `clean` and `malicious` in any case; anything else is suspicious.
pub open spec fn verdict_of_label(label: Seq<char>) -> Verdict {
    if unicode_lower(label) == "clean"@ {
        Verdict::Clean
    } else if unicode_lower(label) == "malicious"@ {
        Verdict::Malicious
    } else {
        Verdict::Suspicious
    }
}

pub fn verdict_from_label(label: &str) -> (v: Verdict)
    ensures
        v == verdict_of_label(label@),
{
    let l = to_lower(label);
    if str_eq(l.as_str(), "clean") {
        Verdict::Clean
    } else if str_eq(l.as_str(), "malicious") {
        Verdict::Malicious
    } else {
        Verdict::Suspicious
    }
}

/// The fields an answer must carry, in the order they are checked.
pub open spec fn answer_fields() -> Seq<Seq<char>> {
    seq!["verdict"@, "confidence"@, "threat_type"@, "indicators"@, "reasoning"@]
}

/// The first field, in the order of [`answer_fields`], that `present` marks absent.
pub open spec fn first_missing(present: Seq<bool>, from: int) -> Option<int>
    decreases 5 - from,
{
    if from >= 5 || from < 0 {
        None
    } else if !present[from] {
        Some(from)
    } else {
        first_missing(present, from + 1)
    }
}

fn field_name(i: usize) -> (r: &'static str)
    requires
        i < 5,
    ensures
        r@ == answer_fields()[i as int],
{
    match i {
        0 => "verdict",
        1 => "confidence",
        2 => "threat_type",
        3 => "indicators",
        _ => "reasoning",
    }
}

/// Whether an answer has every field: `present[i]` says whether the `i`-th of
/// [`answer_fields`] is there. The error names the first that is missing.
pub fn check_answer_fields(present: &Vec<bool>) -> (r: Result<(), String>)
    requires
        present@.len() == 5,
    ensures
        match first_missing(present@, 0) {
            None => r is Ok,
            Some(i) => r matches Err(e) && e@ == "missing field: "@ + answer_fields()[i],
        },
{
    let mut i: usize = 0;
    while i < 5
        invariant
            i <= 5,
            present@.len() == 5,
            first_missing(present@, 0) == first_missing(present@, i as int),
        decreases 5 - i,
    {
        if !present[i] {
            let name = field_name(i);
            let msg = crate::text::concat2("missing field: ", name);
            return Err(msg);
        }
        i = i + 1;
    }
    Ok(())
}

/// The verdict an answer gives once its fields are read: the label decides the
/// verdict; the other fields are kept as they are, and no error is set.
pub fn answer_verdict(label: &str, threat_type: &str, indicators: Vec<String>, reasoning: &str) -> (v: AIVerdict)
    ensures
        v@ == (AIModel {
            verdict: verdict_of_label(label@),
            threat_type: threat_type@,
            indicators: crate::text::views(indicators@),
            reasoning: reasoning@,
            error: Seq::empty(),
        }),
{
    AIVerdict {
        verdict: verdict_from_label(label),
        threat_type: copy_str(threat_type),
        indicators,
        reasoning: copy_str(reasoning),
        error: String::new(),
    }
}

/// A line without one trailing carriage return.
pub open spec fn strip_cr(p: Seq<char>) -> Seq<char> {
    if p.len() > 0 && p.last() == '\r' {
        p.drop_last()
    } else {
        p
    }
}

/// The lines of a text (`str::lines`): split at `\n`, a `\r` right before a `\n`
/// dropped, and no empty line after a final `\n`.
pub open spec fn text_lines(s: Seq<char>) -> Seq<Seq<char>> {
    let pieces = split_char(s, '\n');
    let kept = if pieces.last().len() == 0 {
        pieces.drop_last()
    } else {
        pieces
    };
    Seq::new(
        kept.len(),
        |i: int|
            if i < pieces.len() - 1 {
                strip_cr(kept[i])
            } else {
                kept[i]
            },
    )
}

/// The answer without a Markdown code fence: when it opens with three backquotes
/// and has two lines or more, its lines after the first, up to but without a last
/// line that reads three backquotes once trimmed, joined by newlines.
pub open spec fn unfenced(content: Seq<char>) -> Seq<char> {
    if "```"@.is_prefix_of(content) {
        let lines = text_lines(content);
        if lines.len() >= 2 {
            let end = if trim_seq(lines.last()) == "```"@ {
                lines.len() - 1
            } else {
                lines.len() as int
            };
            join_seq(lines.subrange(1, end), "\n"@)
        } else {
            content
        }
    } else {
        content
    }
}

proof fn lemma_split_nonempty(s: Seq<char>, sep: char)
    ensures
        split_char(s, sep).len() >= 1,
{
}

/// The JSON text of an answer: trimmed, then freed of a code fence around it.
pub fn strip_code_fence(content: &str) -> (r: String)
    ensures
        r@ == unfenced(trim_seq(content@)),
{
    let t = trim_str(content);
    unfence(t.as_str())
}

fn unfence(content: &str) -> (r: String)
    ensures
        r@ == unfenced(content@),
{
    if !str_starts_with(content, "```") {
        return copy_str(content);
    }
    let cs = chars_of(content);
    let pieces = split_chars(&cs, '\n');
    let ghost pv = vec_views(pieces@);
    let np = pieces.len();
    proof {
        lemma_split_nonempty(content@, '\n');
    }
    let kept_len = if pieces[np - 1].len() == 0 {
        np - 1
    } else {
        np
    };
    let ghost kept = if pv.last().len() == 0 {
        pv.drop_last()
    } else {
        pv
    };
    let ghost lines = text_lines(content@);
    assert(lines.len() == kept_len);
    if kept_len < 2 {
        return copy_str(content);
    }
    let mut out: Vec<String> = Vec::new();
    let mut i: usize = 0;
    while i < kept_len
        invariant
            i <= kept_len,
            kept_len <= np,
            np == pieces@.len(),
            pv == vec_views(pieces@),
            pv == split_char(content@, '\n'),
            lines == text_lines(content@),
            lines.len() == kept_len,
            kept == (if pv.last().len() == 0 {
                pv.drop_last()
            } else {
                pv
            }),
            out@.len() == i,
            forall|j: int| 0 <= j < i ==> (#[trigger] out@[j])@ == lines[j],
        decreases kept_len - i,
    {
        let p = &pieces[i];
        let line = if i < np - 1 && p.len() > 0 && p[p.len() - 1] == '\r' {
            slice_chars_prefix(p, p.len() - 1)
        } else {
            slice_chars_prefix(p, p.len())
        };
        assert(kept[i as int] == pv[i as int]);
        assert(line@ == lines[i as int]);
        out.push(string_of(&line));
        i = i + 1;
    }
    let last = trim_chars(&chars_of(out[kept_len - 1].as_str()));
    let end = if str_eq_chars(&last, "```") {
        kept_len - 1
    } else {
        kept_len
    };
    let mut body: Vec<String> = Vec::new();
    let mut k: usize = 1;
    while k < end
        invariant
            1 <= k <= end,
            end <= kept_len,
            out@.len() == kept_len,
            lines.len() == kept_len,
            forall|j: int| 0 <= j < kept_len ==> (#[trigger] out@[j])@ == lines[j],
            crate::text::views(body@) == lines.subrange(1, k as int),
        decreases end - k,
    {
        let ghost before = body@;
        assert(crate::text::views(before).len() == before.len());
        assert(before.len() == k - 1);
        body.push(copy_str(out[k].as_str()));
        assert(body@.last()@ == lines[k as int]);
        assert forall|j: int| 0 <= j < body@.len() - 1 implies body@[j]@ == lines[j + 1] by {
            assert(body@[j] == before[j]);
            assert(crate::text::views(before)[j] == before[j]@);
            assert(crate::text::views(before)[j] == lines.subrange(1, k as int)[j]);
        }
        assert(crate::text::views(body@) =~= lines.subrange(1, k + 1));
        k = k + 1;
    }
    crate::text::join_strings(&body, "\n")
}

fn slice_chars_prefix(p: &Vec<char>, n: usize) -> (r: Vec<char>)
    requires
        n <= p@.len(),
    ensures
        r@ == p@.subrange(0, n as int),
{
    crate::text::slice_chars(p, 0, n)
}

fn str_eq_chars(a: &Vec<char>, b: &str) -> (r: bool)
    ensures
        r == (a@ == b@),
{
    let s = string_of(a);
    str_eq(s.as_str(), b)
}

// ---------------------------------------------------------------------------
// Reading the service's answer.
/// What `serde_json::from_str` gives for a text, read at member `key` with
/// `Value::get`: `None` where the text is not JSON, `Some(None)` where it has no
/// such member (it is no object, or lacks the key), else the member written back
/// as JSON text by `Value::to_string`.
pub uninterp spec fn json_member_json(text: Seq<char>, key: Seq<char>) -> Option<Option<Seq<char>>>;

/// What `serde_json::from_str` gives for a text, read at position `i` with
/// `Value::get`: `None` where the text is not JSON, `Some(None)` where it has no
/// such element (it is no array, or is shorter), else the element written back as
/// JSON text by `Value::to_string`.
pub uninterp spec fn json_element_json(text: Seq<char>, i: nat) -> Option<Option<Seq<char>>>;

/// What `serde_json::from_str` gives for a text, read at member `key` with
/// `Value::get` and `Value::as_str`: `None` where the text is not JSON, `Some(None)`
/// where it has no such member (it is no object, or lacks the key),
/// `Some(Some(None))` where the member is no string, else that string.
pub uninterp spec fn json_member_text(text: Seq<char>, key: Seq<char>) -> Option<
    Option<Option<Seq<char>>>,
>;

/// What `serde_json::from_str` gives for a text, read at member `key` with
/// `Value::get`: `None` where the text is not JSON, `Some(None)` where it has no
/// such member, `Some(Some(Ok(items)))` where the member is an array (each item as
/// `Value::as_str` reads it), and `Some(Some(Err(json)))` for any other value,
/// rendered by `Value::to_string`.
pub uninterp spec fn json_member_items(text: Seq<char>, key: Seq<char>) -> Option<
    Option<Result<Seq<Option<Seq<char>>>, Seq<char>>>,
>;

pub open spec fn opt_view(o: Option<String>) -> Option<Seq<char>> {
    match o {
        Some(s) => Some(s@),
        None => None,
    }
}

pub open spec fn opt_views(v: Seq<Option<String>>) -> Seq<Option<Seq<char>>> {
    v.map_values(|o: Option<String>| opt_view(o))
}

/// Parses the text (`serde_json::from_str`) and writes member `key` back as JSON
/// text; the result is named `json_member_json` of the text and the key.
#[verifier::external_body]
fn member_json(text: &str, key: &str) -> (r: Option<Option<String>>)
    ensures
        match r {
            None => json_member_json(text@, key@) is None,
            Some(m) => json_member_json(text@, key@) == Some(opt_view(m)),
        },
{
    match serde_json::from_str::<serde_json::Value>(text) {
        Ok(v) => Some(v.get(key).map(|m| m.to_string())),
        Err(_) => None,
    }
}

/// Parses the text (`serde_json::from_str`) and writes element `i` back as JSON
/// text; the result is named `json_element_json` of the text and the position.
#[verifier::external_body]
fn element_json(text: &str, i: usize) -> (r: Option<Option<String>>)
    ensures
        match r {
            None => json_element_json(text@, i as nat) is None,
            Some(m) => json_element_json(text@, i as nat) == Some(opt_view(m)),
        },
{
    match serde_json::from_str::<serde_json::Value>(text) {
        Ok(v) => Some(v.get(i).map(|m| m.to_string())),
        Err(_) => None,
    }
}

/// The content of a response of the service: the string at
/// `choices[0].message.content`, read one step at a time (each step parses the
/// JSON text of the one before, which `Value::to_string` wrote and which parses back
/// to the same value). `None` where the response is not JSON; `Some(None)` where
/// no string stands at that place.
pub open spec fn api_content(text: Seq<char>) -> Option<Option<Seq<char>>> {
    match json_member_json(text, "choices"@) {
        None => None,
        Some(None) => Some(None),
        Some(Some(choices)) => match json_element_json(choices, 0) {
            Some(Some(first)) => match json_member_json(first, "message"@) {
                Some(Some(message)) => match json_member_text(message, "content"@) {
                    Some(Some(c)) => Some(c),
                    _ => Some(None),
                },
                _ => Some(None),
            },
            _ => Some(None),
        },
    }
}

/// The content of a response of the service (see [`api_content`]).
pub fn response_content(text: &str) -> (r: Option<Option<String>>)
    ensures
        match r {
            None => api_content(text@) is None,
            Some(c) => api_content(text@) == Some(opt_view(c)),
        },
{
    let choices = match member_json(text, "choices") {
        None => return None,
        Some(None) => return Some(None),
        Some(Some(c)) => c,
    };
    let first = match element_json(choices.as_str(), 0) {
        Some(Some(f)) => f,
        _ => return Some(None),
    };
    let message = match member_json(first.as_str(), "message") {
        Some(Some(m)) => m,
        _ => return Some(None),
    };
    match member_text(message.as_str(), "content") {
        Some(Some(c)) => Some(c),
        _ => Some(None),
    }
}

/// Parses the text (`serde_json::from_str`) and reads member `key` as a string;
/// the result is named `json_member_text` of the text and the key.
#[verifier::external_body]
fn member_text(text: &str, key: &str) -> (r: Option<Option<Option<String>>>)
    ensures
        match r {
            None => json_member_text(text@, key@) is None,
            Some(None) => json_member_text(text@, key@) == Some(None::<Option<Seq<char>>>),
            Some(Some(m)) => json_member_text(text@, key@) == Some(Some(opt_view(m))),
        },
{
    match serde_json::from_str::<serde_json::Value>(text) {
        Ok(v) => Some(v.get(key).map(|m| m.as_str().map(|t| t.to_string()))),
        Err(_) => None,
    }
}

/// Parses the text (`serde_json::from_str`) and reads member `key` as a list of
/// strings; the result is named `json_member_items` of the text and the key.
#[verifier::external_body]
fn member_items(text: &str, key: &str) -> (r: Option<Option<Result<Vec<Option<String>>, String>>>)
    ensures
        match r {
            None => json_member_items(text@, key@) is None,
            Some(None) => json_member_items(text@, key@) == Some(
                None::<Result<Seq<Option<Seq<char>>>, Seq<char>>>,
            ),
            Some(Some(Ok(items))) => json_member_items(text@, key@) == Some(
                Some(Ok::<Seq<Option<Seq<char>>>, Seq<char>>(opt_views(items@))),
            ),
            Some(Some(Err(j))) => json_member_items(text@, key@) == Some(
                Some(Err::<Seq<Option<Seq<char>>>, Seq<char>>(j@)),
            ),
        },
{
    match serde_json::from_str::<serde_json::Value>(text) {
        Ok(v) => Some(v.get(key).map(|m| match m.as_array() {
            Some(items) => Ok(items.iter().map(|x| x.as_str().map(|t| t.to_string())).collect()),
            None => Err(m.to_string()),
        })),
        Err(_) => None,
    }
}

/// The member is there.
pub open spec fn has_member(j: Seq<char>, key: Seq<char>) -> bool {
    json_member_text(j, key) matches Some(Some(_))
}

/// Which of [`answer_fields`] the answer has.
pub open spec fn answer_presence(j: Seq<char>) -> Seq<bool> {
    seq![
        has_member(j, "verdict"@),
        has_member(j, "confidence"@),
        has_member(j, "threat_type"@),
        has_member(j, "indicators"@),
        has_member(j, "reasoning"@),
    ]
}

/// A member read as text; the empty string where it is missing or no string.
pub open spec fn text_or_empty(m: Option<Option<Option<Seq<char>>>>) -> Seq<char> {
    match m {
        Some(Some(Some(t))) => t,
        _ => Seq::empty(),
    }
}

/// The indicators: the items of a list, each string as it is and any other item
/// as the empty string; any other value as its JSON text, alone (`null` when missing).
pub open spec fn indicator_list(m: Option<Option<Result<Seq<Option<Seq<char>>>, Seq<char>>>>) -> Seq<
    Seq<char>,
> {
    match m {
        Some(Some(Ok(items))) => items.map_values(
            |o: Option<Seq<char>>|
                match o {
                    Some(t) => t,
                    None => Seq::empty(),
                },
        ),
        Some(Some(Err(j))) => seq![j],
        _ => seq!["null"@],
    }
}

/// What the JSON text of an answer gives: an error where it is not JSON or lacks a
/// field, else the verdict its fields make.
pub open spec fn answer_outcome(j: Seq<char>) -> Result<AIModel, Seq<char>> {
    if json_member_text(j, "verdict"@) is None {
        Err("parse AI JSON"@)
    } else {
        match first_missing(answer_presence(j), 0) {
            Some(i) => Err("missing field: "@ + answer_fields()[i]),
            None => Ok(
                AIModel {
                    verdict: verdict_of_label(text_or_empty(json_member_text(j, "verdict"@))),
                    threat_type: text_or_empty(json_member_text(j, "threat_type"@)),
                    indicators: indicator_list(json_member_items(j, "indicators"@)),
                    reasoning: text_or_empty(json_member_text(j, "reasoning"@)),
                    error: Seq::empty(),
                },
            ),
        }
    }
}

/// What a response of the service gives: an error where it is not JSON or has no
/// content, else what the content, trimmed and freed of a code fence, gives.
pub open spec fn response_outcome(text: Seq<char>) -> Result<AIModel, Seq<char>> {
    match api_content(text) {
        None => Err("parse API response"@),
        Some(None) => Err("empty content"@),
        Some(Some(c)) => answer_outcome(unfenced(trim_seq(c))),
    }
}

fn text_member(j: &str, key: &str) -> (r: String)
    ensures
        r@ == text_or_empty(json_member_text(j@, key@)),
{
    match member_text(j, key) {
        Some(Some(Some(t))) => t,
        _ => String::new(),
    }
}

fn present_member(j: &str, key: &str) -> (b: bool)
    ensures
        b == has_member(j@, key@),
{
    match member_text(j, key) {
        Some(Some(_)) => true,
        _ => false,
    }
}

fn indicator_strings(j: &str) -> (r: Vec<String>)
    ensures
        crate::text::views(r@) == indicator_list(json_member_items(j@, "indicators"@)),
{
    match member_items(j, "indicators") {
        Some(Some(Ok(items))) => {
            let ghost want = indicator_list(json_member_items(j@, "indicators"@));
            let mut out: Vec<String> = Vec::new();
            let mut i: usize = 0;
            while i < items.len()
                invariant
                    i <= items@.len(),
                    want == indicator_list(Some(Some(Ok(opt_views(items@))))),
                    out@.len() == i,
                    forall|k: int| 0 <= k < i ==> (#[trigger] out@[k])@ == want[k],
                decreases items@.len() - i,
            {
                let t = match &items[i] {
                    Some(t) => copy_str(t.as_str()),
                    None => String::new(),
                };
                out.push(t);
                i = i + 1;
            }
            assert(crate::text::views(out@) =~= want);
            out
        },
        Some(Some(Err(json))) => {
            let mut out: Vec<String> = Vec::new();
            out.push(json);
            assert(crate::text::views(out@) =~= seq![out@[0]@]);
            out
        },
        _ => {
            let mut out: Vec<String> = Vec::new();
            out.push(copy_str("null"));
            assert(crate::text::views(out@) =~= seq![out@[0]@]);
            out
        },
    }
}

fn read_answer(j: &str) -> (r: Result<AIVerdict, String>)
    ensures
        match r {
            Ok(v) => answer_outcome(j@) == Ok::<AIModel, Seq<char>>(v@),
            Err(e) => answer_outcome(j@) == Err::<AIModel, Seq<char>>(e@),
        },
{
    if member_text(j, "verdict").is_none() {
        return Err(copy_str("parse AI JSON"));
    }
    let mut present: Vec<bool> = Vec::new();
    present.push(present_member(j, "verdict"));
    present.push(present_member(j, "confidence"));
    present.push(present_member(j, "threat_type"));
    present.push(present_member(j, "indicators"));
    present.push(present_member(j, "reasoning"));
    assert(present@ =~= answer_presence(j@));
    match check_answer_fields(&present) {
        Err(e) => Err(e),
        Ok(()) => {
            let label = text_member(j, "verdict");
            let threat = text_member(j, "threat_type");
            let reasoning = text_member(j, "reasoning");
            let indicators = indicator_strings(j);
            let v = answer_verdict(label.as_str(), threat.as_str(), indicators, reasoning.as_str());
            Ok(v)
        },
    }
}

/// Reads the service's response: the verdict its answer gives, or the message of
/// what went wrong (see [`response_outcome`]).
pub fn parse_response(text: &str) -> (r: Result<AIVerdict, String>)
    ensures
        match r {
            Ok(v) => response_outcome(text@) == Ok::<AIModel, Seq<char>>(v@),
            Err(e) => response_outcome(text@) == Err::<AIModel, Seq<char>>(e@),
        },
{
    match response_content(text) {
        None => Err(copy_str("parse API response")),
        Some(None) => Err(copy_str("empty content")),
        Some(Some(c)) => {
            let json = strip_code_fence(c.as_str());
            read_answer(json.as_str())
        },
    }
}

} // verus!
