//! Gemma 4 tool-call sanitizer.
//!
//! Gemma 4 models emit tool calls using a custom token format with `<|"|>` string
//! escaping and `<|tool_call>` / `<tool_call|>` delimiters.  When serving backends
//! (Ollama, llama.cpp, vLLM) lack a parser for this format, the raw special tokens
//! leak into the OpenAI-compatible JSON output, producing invalid JSON that
//! downstream callers cannot parse.
//!
//! This processor cleans up the leaked tokens in both requests (message history that
//! may contain prior bad responses) and responses (fresh model output).

use vstd::prelude::*;

use crate::json::{array_of, elements, json_of_text, lemma_with_same, text_of, Json, JsonView};
use crate::processors::{Processor, ProcessorPhase};
use crate::seqs::lemma_filter_none;
use crate::text::{
    begins_with, chars_of, contains_text, find_text, has_text, lemma_replace_absent,
    lemma_replace_shortens, occurs_at, replace_all, replace_text, starts_with, string_of,
};

verus! {

pub struct Gemma4ToolCallFix;

// ---------------------------------------------------------------------
// Rewriting

/// `s` after each rule in turn has replaced its first text by its second.
pub open spec fn rewritten(s: Seq<char>, rules: Seq<(Seq<char>, Seq<char>)>) -> Seq<char>
    decreases rules.len(),
{
    if rules.len() == 0 {
        s
    } else {
        replace_all(rewritten(s, rules.drop_last()), rules.last().0, rules.last().1)
    }
}

/// The models of rewriting rules.
pub open spec fn rule_views(rules: Seq<(&'static str, &'static str)>) -> Seq<
    (Seq<char>, Seq<char>),
> {
    Seq::new(rules.len(), |i: int| (rules[i].0@, rules[i].1@))
}

/// Applies rewriting rules, one after the other.
fn rewrite(s: &str, rules: &Vec<(&'static str, &'static str)>) -> (r: Vec<char>)
    requires
        forall|i: int| 0 <= i < rules@.len() ==> (#[trigger] rules@[i]).0@.len() > 0,
    ensures
        r@ == rewritten(s@, rule_views(rules@)),
{
    let mut out = chars_of(s);
    let ghost all = rule_views(rules@);
    let mut i: usize = 0;
    assert(all.take(0) =~= Seq::<(Seq<char>, Seq<char>)>::empty());
    while i < rules.len()
        invariant
            i <= rules@.len(),
            all == rule_views(rules@),
            forall|k: int| 0 <= k < rules@.len() ==> (#[trigger] rules@[k]).0@.len() > 0,
            out@ == rewritten(s@, all.take(i as int)),
        decreases rules.len() - i,
    {
        out = replace_text(&out, rules[i].0, rules[i].1);
        assert(all.take(i + 1).drop_last() =~= all.take(i as int));
        i += 1;
    }
    assert(all.take(all.len() as int) =~= all);
    out
}

/// A text in which no rule finds anything is left as it is.
pub proof fn lemma_rewritten_absent(s: Seq<char>, rules: Seq<(Seq<char>, Seq<char>)>)
    requires
        forall|i: int| 0 <= i < rules.len() ==> !has_text(s, (#[trigger] rules[i]).0),
    ensures
        rewritten(s, rules) == s,
    decreases rules.len(),
{
    if rules.len() > 0 {
        lemma_rewritten_absent(s, rules.drop_last());
        lemma_replace_absent(s, rules.last().0, rules.last().1);
    }
}

// ---------------------------------------------------------------------
// Tool-call arguments

/// What becomes of leaked tokens in tool-call arguments: the delimiters of a
/// tool-call block go, string delimiters and what is left of them become
/// quotes, and stray halves of delimiters go.
pub open spec fn argument_rules() -> Seq<(Seq<char>, Seq<char>)> {
    seq![
        ("<|tool_call>"@, ""@),
        ("<tool_call|>"@, ""@),
        ("<|tool_call|>"@, ""@),
        ("<|\"|>"@, "\""@),
        ("<|\\\"|"@, "\""@),
        ("<|\\\""@, "\""@),
        ("<|\""@, "\""@),
        ("\"|>"@, "\""@),
        ("<|\\"@, ""@),
        ("<|"@, ""@),
        ("|>"@, ""@),
        ("\"|"@, "\""@),
        ("|\""@, "\""@),
    ]
}

/// A character that JSON allows between values.
pub open spec fn is_blank(c: char) -> bool {
    c == ' ' || c == '\t' || c == '\n' || c == '\r'
}

/// The character at position `i` is escaped: a backslash stands before it that
/// is not escaped itself.
pub open spec fn is_escaped(s: Seq<char>, i: int) -> bool
    decreases i,
{
    i > 0 && s[i - 1] == '\\' && !is_escaped(s, i - 1)
}

/// How many of the first `n` characters are quotes that are not escaped.
pub open spec fn open_quotes(s: Seq<char>, n: int) -> nat
    decreases n,
{
    if n <= 0 {
        0
    } else if s[n - 1] == '"' && !is_escaped(s, n - 1) {
        open_quotes(s, n - 1) + 1
    } else {
        open_quotes(s, n - 1)
    }
}

/// A quote at position `p` opens a string: those before it are in pairs.
pub open spec fn opens_string(s: Seq<char>, p: int) -> bool {
    open_quotes(s, p) % 2 == 0
}

/// The two quotes at position `p` are an empty key: a colon follows them, the
/// first of them opens a string, and they stand where a key begins, that is, at
/// the start of the text or behind an opening brace, a comma or a blank.
/// Elsewhere they are the end of a key with a quote too many.
pub open spec fn is_empty_key(s: Seq<char>, p: int) -> bool {
    &&& p + 2 < s.len() && s[p + 2] == ':'
    &&& p == 0 || s[p - 1] == '{' || s[p - 1] == ',' || is_blank(s[p - 1])
    &&& opens_string(s, p)
}

/// The two quotes at position `p` are an empty string value: they follow a
/// colon or a space, and a comma, a closing bracket or the end of the text
/// follows them.
pub open spec fn is_empty_value(s: Seq<char>, p: int) -> bool {
    &&& p > 0
    &&& s[p - 1] == ':' || s[p - 1] == ' '
    &&& p + 2 >= s.len() || s[p + 2] == ',' || s[p + 2] == '}' || s[p + 2] == ']'
}

/// The two quotes at position `p` are an empty string in an array: they follow
/// the opening bracket or a comma, a comma or the closing bracket follows them,
/// and the first of them opens a string.
pub open spec fn is_empty_element(s: Seq<char>, p: int) -> bool {
    &&& p > 0
    &&& s[p - 1] == '[' || s[p - 1] == ','
    &&& p + 2 < s.len() && (s[p + 2] == ',' || s[p + 2] == ']')
    &&& opens_string(s, p)
}

/// The two quotes at position `p` are an empty string, and stay.
pub open spec fn is_kept_pair(s: Seq<char>, p: int) -> bool {
    is_empty_key(s, p) || is_empty_value(s, p) || is_empty_element(s, p)
}

/// The first position at which `pat` stands in `s`.
pub open spec fn first_at(s: Seq<char>, pat: Seq<char>, p: int) -> bool {
    occurs_at(s, pat, p) && forall|j: int| 0 <= j < p ==> !occurs_at(s, pat, j)
}

/// `s` with runs of quotes made single: first runs of three, as often as there
/// are any, and then the first pair, unless it is an empty string, at which it
/// ends.
pub open spec fn collapsed(s: Seq<char>) -> Seq<char>
    decreases s.len(),
{
    if has_text(s, "\"\"\""@) {
        proof {
            reveal_strlit("\"\"\"");
            reveal_strlit("\"");
            lemma_replace_shortens(s, "\"\"\""@, "\""@);
        }
        collapsed(replace_all(s, "\"\"\""@, "\""@))
    } else if has_text(s, "\"\""@) {
        let p = choose|p: int| first_at(s, "\"\""@, p);
        if is_kept_pair(s, p) {
            s
        } else {
            proof {
                reveal_strlit("\"\"");
                reveal_strlit("\"");
                lemma_first_exists(s, "\"\""@, choose|i: int| occurs_at(s, "\"\""@, i));
            }
            collapsed(s.take(p) + "\""@ + s.skip(p + 2))
        }
    } else {
        s
    }
}

/// A text that stands somewhere has a first position.
pub proof fn lemma_first_exists(s: Seq<char>, pat: Seq<char>, i: int)
    requires
        occurs_at(s, pat, i),
    ensures
        exists|p: int| first_at(s, pat, p),
    decreases i,
{
    if exists|j: int| 0 <= j < i && occurs_at(s, pat, j) {
        lemma_first_exists(s, pat, choose|j: int| 0 <= j < i && occurs_at(s, pat, j));
    } else {
        assert(first_at(s, pat, i));
    }
}

/// The first position is the only one.
proof fn lemma_first_unique(s: Seq<char>, pat: Seq<char>, p: int)
    requires
        first_at(s, pat, p),
    ensures
        p == choose|q: int| first_at(s, pat, q),
{
    let q = choose|q: int| first_at(s, pat, q);
    assert(first_at(s, pat, q));
    if p < q {
        assert(!occurs_at(s, pat, p));
    }
    if q < p {
        assert(!occurs_at(s, pat, q));
    }
}

/// Whether a quote at position `p` opens a string.
fn at_opening(s: &Vec<char>, p: usize) -> (r: bool)
    requires
        p <= s@.len(),
    ensures
        r == opens_string(s@, p as int),
{
    let mut even = true;
    let mut escaped = false;
    let mut i: usize = 0;
    while i < p
        invariant
            i <= p <= s@.len(),
            even == opens_string(s@, i as int),
            escaped == is_escaped(s@, i as int),
        decreases p - i,
    {
        if s[i] == '"' && !escaped {
            even = !even;
        }
        escaped = s[i] == '\\' && !escaped;
        i += 1;
    }
    even
}

/// Whether the two quotes at position `p` are an empty string.
fn kept_pair(s: &Vec<char>, p: usize) -> (r: bool)
    requires
        p + 2 <= s@.len(),
    ensures
        r == is_kept_pair(s@, p as int),
{
    let at_start = p == 0;
    let at_end = p == s.len() - 2;
    let before = if at_start {
        '{'
    } else {
        s[p - 1]
    };
    let after = if at_end {
        '}'
    } else {
        s[p + 2]
    };
    let blank = before == ' ' || before == '\t' || before == '\n' || before == '\r';
    let empty_key = !at_end && after == ':' && (before == '{' || before == ',' || blank);
    let empty_value = !at_start && (before == ':' || before == ' ') && (after == ',' || after
        == '}' || after == ']');
    let empty_element = !at_start && !at_end && (before == '[' || before == ',') && (after == ','
        || after == ']');
    empty_value || ((empty_key || empty_element) && at_opening(s, p))
}

/// Makes runs of quotes single.
fn collapse(text: Vec<char>) -> (r: Vec<char>)
    ensures
        r@ == collapsed(text@),
{
    proof {
        reveal_strlit("\"\"\"");
        reveal_strlit("\"\"");
        reveal_strlit("\"");
    }
    let pair = chars_of("\"\"");
    let mut s = text;
    loop
        invariant
            pair@ == "\"\""@,
            "\"\"\""@.len() == 3,
            "\"\""@ == seq!['"', '"'],
            "\""@ == seq!['"'],
            collapsed(s@) == collapsed(text@),
        ensures
            s@ == collapsed(text@),
        decreases s@.len(),
    {
        if contains_text(&s, "\"\"\"") {
            proof {
                lemma_replace_shortens(s@, "\"\"\""@, "\""@);
            }
            s = replace_text(&s, "\"\"\"", "\"");
        } else {
            match find_text(&s, &pair) {
                Some(p) => {
                    proof {
                        assert(first_at(s@, "\"\""@, p as int));
                        lemma_first_unique(s@, "\"\""@, p as int);
                    }
                    if kept_pair(&s, p) {
                        break ;
                    }
                    let ghost old_s = s@;
                    s.remove(p);
                    assert(old_s.subrange(p as int, p + 2)[1] == '"');
                    assert(s@ =~= old_s.take(p as int) + "\""@ + old_s.skip(p + 2));
                },
                None => {
                    break ;
                },
            }
        }
    }
    s
}

/// Tool-call arguments without leaked tokens and without the runs of quotes that
/// these leave.
pub open spec fn cleaned_arguments(raw: Seq<char>) -> Seq<char> {
    collapsed(rewritten(raw, argument_rules()))
}

/// Strips leaked tokens from tool-call arguments.
pub fn strip_tokens(raw: &str) -> (r: String)
    ensures
        r@ == rewritten(raw@, argument_rules()),
{
    let rules: Vec<(&'static str, &'static str)> = vec![
        ("<|tool_call>", ""),
        ("<tool_call|>", ""),
        ("<|tool_call|>", ""),
        ("<|\"|>", "\""),
        ("<|\\\"|", "\""),
        ("<|\\\"", "\""),
        ("<|\"", "\""),
        ("\"|>", "\""),
        ("<|\\", ""),
        ("<|", ""),
        ("|>", ""),
        ("\"|", "\""),
        ("|\"", "\""),
    ];
    proof {
        reveal_strlit("<|tool_call>");
        reveal_strlit("<tool_call|>");
        reveal_strlit("<|tool_call|>");
        reveal_strlit("<|\"|>");
        reveal_strlit("<|\\\"|");
        reveal_strlit("<|\\\"");
        reveal_strlit("<|\"");
        reveal_strlit("\"|>");
        reveal_strlit("<|\\");
        reveal_strlit("<|");
        reveal_strlit("|>");
        reveal_strlit("\"|");
        reveal_strlit("|\"");
        assert(rule_views(rules@) =~= argument_rules());
    }
    string_of(&rewrite(raw, &rules))
}

/// Makes runs of quotes in a text single.
pub fn collapse_quotes(text: &str) -> (r: String)
    ensures
        r@ == collapsed(text@),
{
    string_of(&collapse(chars_of(text)))
}

/// Cleans leaked tokens out of tool-call arguments.
pub fn clean_arguments(raw: &str) -> (r: String)
    ensures
        r@ == cleaned_arguments(raw@),
{
    collapse_quotes(strip_tokens(raw).as_str())
}

/// `s` in braces.
pub open spec fn braced(s: Seq<char>) -> Seq<char> {
    "{"@ + s + "}"@
}

/// Key-value pairs without the braces: there is a colon and no opening brace
/// in front.
pub open spec fn is_unbraced(s: Seq<char>) -> bool {
    !begins_with(s, "{"@) && has_text(s, ":"@)
}

/// Of stripped arguments, of cleaned ones and of the cleaned ones in braces,
/// those to be handed out, depending on which of them are JSON: what is JSON once
/// it is stripped stays so, and the braces come only where they make JSON out of
/// pairs without them.
pub open spec fn chosen_arguments(
    stripped: Seq<char>,
    stripped_is_json: bool,
    cleaned: Seq<char>,
    is_json: bool,
    braced_is_json: bool,
) -> Seq<char> {
    if stripped_is_json {
        stripped
    } else if !is_json && is_unbraced(cleaned) && braced_is_json {
        braced(cleaned)
    } else {
        cleaned
    }
}

/// `s` in braces.
pub fn in_braces(s: &str) -> (r: String)
    ensures
        r@ == braced(s@),
{
    let mut r = "{".to_owned();
    r.append(s);
    r.append("}");
    r
}

/// Picks stripped arguments, cleaned ones or the cleaned ones in braces, depending
/// on which of them are JSON.
pub fn choose_arguments(
    stripped: String,
    stripped_is_json: bool,
    cleaned: String,
    is_json: bool,
    braced_is_json: bool,
) -> (r: String)
    ensures
        r@ == chosen_arguments(stripped@, stripped_is_json, cleaned@, is_json, braced_is_json),
{
    if stripped_is_json {
        return stripped;
    }
    if is_json {
        return cleaned;
    }
    let c = chars_of(cleaned.as_str());
    if !starts_with(cleaned.as_str(), "{") && contains_text(&c, ":")
        && braced_is_json {
        return in_braces(cleaned.as_str());
    }
    cleaned
}

/// Tool-call arguments after repair.
pub open spec fn repaired_arguments(raw: Seq<char>) -> Seq<char> {
    let stripped = rewritten(raw, argument_rules());
    let cleaned = cleaned_arguments(raw);
    chosen_arguments(
        stripped,
        json_of_text(stripped) is Some,
        cleaned,
        json_of_text(cleaned) is Some,
        json_of_text(braced(cleaned)) is Some,
    )
}

/// Repair a tool-call arguments string that may contain Gemma 4 special tokens.
///
/// The model emits patterns like:
///   `<|"|>some value<|"|>` instead of `"some value"`
///   `<|tool_call>` / `<tool_call|>` delimiters
///   `<|\` prefix artifacts
///
/// This function strips those patterns and attempts to produce valid JSON.
pub fn sanitize_tool_call_arguments(raw: &str) -> (r: String)
    ensures
        r@ == repaired_arguments(raw@),
{
    let stripped = strip_tokens(raw);
    let stripped_is_json = Json::parse(stripped.as_str()).is_some();
    let cleaned = collapse_quotes(stripped.as_str());
    let is_json = Json::parse(cleaned.as_str()).is_some();
    let braced_is_json = Json::parse(in_braces(cleaned.as_str()).as_str()).is_some();
    choose_arguments(stripped, stripped_is_json, cleaned, is_json, braced_is_json)
}

// ---------------------------------------------------------------------
// Content

/// What becomes of leaked tokens in message content.
pub open spec fn content_rules() -> Seq<(Seq<char>, Seq<char>)> {
    seq![
        ("<|tool_call>"@, ""@),
        ("<tool_call|>"@, ""@),
        ("<|tool_call|>"@, ""@),
        ("<|\"|>"@, "\""@),
        ("<|\\\""@, "\""@),
        ("<|\""@, "\""@),
        ("\"|>"@, "\""@),
    ]
}

/// Clean leaked special tokens from arbitrary string content.
pub fn sanitize_string(raw: &str) -> (r: String)
    ensures
        r@ == rewritten(raw@, content_rules()),
{
    let rules: Vec<(&'static str, &'static str)> = vec![
        ("<|tool_call>", ""),
        ("<tool_call|>", ""),
        ("<|tool_call|>", ""),
        ("<|\"|>", "\""),
        ("<|\\\"", "\""),
        ("<|\"", "\""),
        ("\"|>", "\""),
    ];
    proof {
        reveal_strlit("<|tool_call>");
        reveal_strlit("<tool_call|>");
        reveal_strlit("<|tool_call|>");
        reveal_strlit("<|\"|>");
        reveal_strlit("<|\\\"");
        reveal_strlit("<|\"");
        reveal_strlit("\"|>");
        assert(rule_views(rules@) =~= content_rules());
    }
    string_of(&rewrite(raw, &rules))
}

// ---------------------------------------------------------------------
// Messages

/// A tool call with its arguments repaired, where they are a string.
pub open spec fn sanitized_call(tc: JsonView) -> JsonView {
    match tc.member("function"@) {
        Some(f) => match text_of(f.member("arguments"@)) {
            Some(args) => tc.with(
                "function"@,
                f.with("arguments"@, JsonView::Str(repaired_arguments(args))),
            ),
            None => tc,
        },
        None => tc,
    }
}

/// A message with its tool calls repaired.
pub open spec fn with_sanitized_calls(msg: JsonView) -> JsonView {
    match array_of(msg.member("tool_calls"@)) {
        Some(calls) => msg.with(
            "tool_calls"@,
            JsonView::Array(calls.map_values(|tc: JsonView| sanitized_call(tc))),
        ),
        None => msg,
    }
}

/// A message with its content cleaned, where that is a string in which half a
/// delimiter is found.
pub open spec fn with_sanitized_content(msg: JsonView) -> JsonView {
    match text_of(msg.member("content"@)) {
        Some(content) => if has_text(content, "<|"@) || has_text(content, "|>"@) {
            msg.with("content"@, JsonView::Str(rewritten(content, content_rules())))
        } else {
            msg
        },
        None => msg,
    }
}

/// A message with its tool calls and its content cleaned.
pub open spec fn sanitized_message(msg: JsonView) -> JsonView {
    with_sanitized_content(with_sanitized_calls(msg))
}

/// Clean a single tool_call object.
pub fn sanitize_tool_call(tc: &mut Json)
    ensures
        final(tc)@ == sanitized_call(old(tc)@),
{
    proof {
        lemma_with_same(tc@, "function"@);
        if let Some(f) = tc@.member("function"@) {
            lemma_with_same(f, "arguments"@);
        }
    }
    if let Some(function) = tc.get_mut("function") {
        if let Some(args) = function.get_mut("arguments") {
            let cleaned = match args {
                Json::Text(s) => Some(sanitize_tool_call_arguments(s.as_str())),
                _ => None,
            };
            if let Some(cleaned) = cleaned {
                *args = Json::Text(cleaned);
            }
        }
    }
}

/// Cleans all the tool calls of a message.
fn sanitize_calls(calls: &mut Vec<Json>)
    ensures
        elements(final(calls)@) == elements(old(calls)@).map_values(
            |tc: JsonView| sanitized_call(tc),
        ),
{
    let mut i: usize = 0;
    while i < calls.len()
        invariant
            i <= calls@.len(),
            calls@.len() == old(calls)@.len(),
            forall|k: int|
                0 <= k < i ==> (#[trigger] calls@[k])@ == sanitized_call(old(calls)@[k]@),
            forall|k: int| i <= k < calls@.len() ==> #[trigger] calls@[k] == old(calls)@[k],
        decreases calls.len() - i,
    {
        sanitize_tool_call(&mut calls[i]);
        i += 1;
    }
    assert(elements(calls@) =~= elements(old(calls)@).map_values(
        |tc: JsonView| sanitized_call(tc),
    ));
}

/// Clean a single message object (assistant message with tool_calls).
pub fn sanitize_message(msg: &mut Json)
    ensures
        final(msg)@ == sanitized_message(old(msg)@),
{
    proof {
        lemma_with_same(msg@, "tool_calls"@);
    }
    if let Some(tool_calls) = msg.get_mut("tool_calls") {
        if let Some(calls) = tool_calls.as_array_mut() {
            sanitize_calls(calls);
        }
    }
    proof {
        lemma_with_same(msg@, "content"@);
    }
    if let Some(content) = msg.get_mut("content") {
        let cleaned = match content {
            Json::Text(s) => {
                let c = chars_of(s.as_str());
                if contains_text(&c, "<|") || contains_text(&c, "|>") {
                    Some(sanitize_string(s.as_str()))
                } else {
                    None
                }
            },
            _ => None,
        };
        if let Some(cleaned) = cleaned {
            *content = Json::Text(cleaned);
        }
    }
}

/// A value with the message under that name cleaned, if there is one.
pub open spec fn sanitized_at(v: JsonView, key: Seq<char>) -> JsonView {
    match v.member(key) {
        Some(msg) => v.with(key, sanitized_message(msg)),
        None => v,
    }
}

/// Cleans the message under that name, if there is one.
fn sanitize_at(v: &mut Json, key: &str)
    ensures
        final(v)@ == sanitized_at(old(v)@, key@),
{
    if let Some(msg) = v.get_mut(key) {
        sanitize_message(msg);
    }
}

// ---------------------------------------------------------------------
// Bodies

/// A request with the messages of its history cleaned.
pub open spec fn sanitized_request(body: JsonView) -> JsonView {
    match array_of(body.member("messages"@)) {
        Some(messages) => body.with(
            "messages"@,
            JsonView::Array(messages.map_values(|msg: JsonView| sanitized_message(msg))),
        ),
        None => body,
    }
}

/// A choice of a response with its message and its delta cleaned.
pub open spec fn sanitized_choice(choice: JsonView) -> JsonView {
    sanitized_at(sanitized_at(choice, "message"@), "delta"@)
}

/// A response with its choices cleaned, and its message, as Ollama's own
/// format has it.
pub open spec fn sanitized_response(body: JsonView) -> JsonView {
    let with_choices = match array_of(body.member("choices"@)) {
        Some(choices) => body.with(
            "choices"@,
            JsonView::Array(choices.map_values(|choice: JsonView| sanitized_choice(choice))),
        ),
        None => body,
    };
    sanitized_at(with_choices, "message"@)
}

/// A streaming chunk with the deltas of its choices cleaned, and its message,
/// as Ollama's own format has it.
pub open spec fn sanitized_chunk(chunk: JsonView) -> JsonView {
    let with_choices = match array_of(chunk.member("choices"@)) {
        Some(choices) => chunk.with(
            "choices"@,
            JsonView::Array(
                choices.map_values(|choice: JsonView| sanitized_at(choice, "delta"@)),
            ),
        ),
        None => chunk,
    };
    sanitized_at(with_choices, "message"@)
}

/// Cleans all the messages of a history.
fn sanitize_messages(messages: &mut Vec<Json>)
    ensures
        elements(final(messages)@) == elements(old(messages)@).map_values(
            |msg: JsonView| sanitized_message(msg),
        ),
{
    let mut i: usize = 0;
    while i < messages.len()
        invariant
            i <= messages@.len(),
            messages@.len() == old(messages)@.len(),
            forall|k: int|
                0 <= k < i ==> (#[trigger] messages@[k])@ == sanitized_message(
                    old(messages)@[k]@,
                ),
            forall|k: int|
                i <= k < messages@.len() ==> #[trigger] messages@[k] == old(messages)@[k],
        decreases messages.len() - i,
    {
        sanitize_message(&mut messages[i]);
        i += 1;
    }
    assert(elements(messages@) =~= elements(old(messages)@).map_values(
        |msg: JsonView| sanitized_message(msg),
    ));
}

/// Cleans all the choices of a response.
fn sanitize_choices(choices: &mut Vec<Json>)
    ensures
        elements(final(choices)@) == elements(old(choices)@).map_values(
            |choice: JsonView| sanitized_choice(choice),
        ),
{
    let mut i: usize = 0;
    while i < choices.len()
        invariant
            i <= choices@.len(),
            choices@.len() == old(choices)@.len(),
            forall|k: int|
                0 <= k < i ==> (#[trigger] choices@[k])@ == sanitized_choice(old(choices)@[k]@),
            forall|k: int| i <= k < choices@.len() ==> #[trigger] choices@[k] == old(choices)@[k],
        decreases choices.len() - i,
    {
        sanitize_at(&mut choices[i], "message");
        sanitize_at(&mut choices[i], "delta");
        i += 1;
    }
    assert(elements(choices@) =~= elements(old(choices)@).map_values(
        |choice: JsonView| sanitized_choice(choice),
    ));
}

/// Cleans the deltas of all the choices of a chunk.
fn sanitize_deltas(choices: &mut Vec<Json>)
    ensures
        elements(final(choices)@) == elements(old(choices)@).map_values(
            |choice: JsonView| sanitized_at(choice, "delta"@),
        ),
{
    let mut i: usize = 0;
    while i < choices.len()
        invariant
            i <= choices@.len(),
            choices@.len() == old(choices)@.len(),
            forall|k: int|
                0 <= k < i ==> (#[trigger] choices@[k])@ == sanitized_at(
                    old(choices)@[k]@,
                    "delta"@,
                ),
            forall|k: int| i <= k < choices@.len() ==> #[trigger] choices@[k] == old(choices)@[k],
        decreases choices.len() - i,
    {
        sanitize_at(&mut choices[i], "delta");
        i += 1;
    }
    assert(elements(choices@) =~= elements(old(choices)@).map_values(
        |choice: JsonView| sanitized_at(choice, "delta"@),
    ));
}

impl Processor for Gemma4ToolCallFix {
    open spec fn id_text(&self) -> Seq<char> {
        "gemma4-tool-call-fix"@
    }

    open spec fn description_text(&self) -> Seq<char> {
        "Fix malformed JSON in Gemma 4 tool calls \u{2014} strips leaked special tokens (<|\">, <|tool_call>, etc.) and repairs invalid escape sequences produced when the serving backend lacks a native Gemma 4 tool-call parser"@
    }

    open spec fn phase_value(&self) -> ProcessorPhase {
        ProcessorPhase::Both
    }

    open spec fn request(&self, body: JsonView) -> JsonView {
        sanitized_request(body)
    }

    open spec fn response(&self, body: JsonView) -> JsonView {
        sanitized_response(body)
    }

    open spec fn response_chunk(&self, chunk: JsonView) -> JsonView {
        sanitized_chunk(chunk)
    }

    open spec fn raw_response(&self, raw: Seq<char>) -> Option<Seq<char>> {
        None
    }

    fn id(&self) -> (r: &'static str) {
        "gemma4-tool-call-fix"
    }

    fn description(&self) -> (r: &'static str) {
        "Fix malformed JSON in Gemma 4 tool calls \u{2014} strips leaked special tokens (<|\">, <|tool_call>, etc.) and repairs invalid escape sequences produced when the serving backend lacks a native Gemma 4 tool-call parser"
    }

    fn phase(&self) -> (r: ProcessorPhase) {
        ProcessorPhase::Both
    }

    fn process_request(&self, body: &mut Json) {
        // Clean up message history that may contain prior bad tool-call output.
        proof {
            lemma_with_same(body@, "messages"@);
        }
        if let Some(messages) = body.get_mut("messages") {
            if let Some(messages) = messages.as_array_mut() {
                sanitize_messages(messages);
            }
        }
    }

    fn process_response(&self, body: &mut Json) {
        // Non-streaming: clean the top-level response message.
        proof {
            lemma_with_same(body@, "choices"@);
        }
        if let Some(choices) = body.get_mut("choices") {
            if let Some(choices) = choices.as_array_mut() {
                sanitize_choices(choices);
            }
        }
        // Ollama native /api/chat format
        sanitize_at(body, "message");
    }

    fn process_response_chunk(&self, chunk: &mut Json) {
        // Streaming chunks: clean deltas
        proof {
            lemma_with_same(chunk@, "choices"@);
        }
        if let Some(choices) = chunk.get_mut("choices") {
            if let Some(choices) = choices.as_array_mut() {
                sanitize_deltas(choices);
            }
        }
        // Ollama native streaming
        sanitize_at(chunk, "message");
    }

    fn repair_raw_response(&self, raw: &str) -> (r: Option<String>) {
        None
    }
}

// ---------------------------------------------------------------------
// Laws

/// A text that does not hold a part of `pat` does not hold `pat`.
proof fn lemma_part_absent(s: Seq<char>, pat: Seq<char>, part: Seq<char>, k: int)
    requires
        occurs_at(pat, part, k),
        !has_text(s, part),
    ensures
        !has_text(s, pat),
{
    assert forall|i: int| !occurs_at(s, pat, i) by {
        if occurs_at(s, pat, i) {
            assert(s.subrange(i + k, i + k + part.len()) =~= s.subrange(
                i,
                i + pat.len(),
            ).subrange(k, k + part.len()));
            assert(occurs_at(s, part, i + k));
        }
    }
}

/// No part of a leaked token is in the text.
pub open spec fn is_free_of_tokens(s: Seq<char>) -> bool {
    &&& !has_text(s, "<|"@)
    &&& !has_text(s, "|>"@)
    &&& !has_text(s, "\"|"@)
    &&& !has_text(s, "|\""@)
}

/// A text without leaked tokens is changed by none of the rules.
proof fn lemma_free_of_tokens(s: Seq<char>)
    requires
        is_free_of_tokens(s),
    ensures
        rewritten(s, argument_rules()) == s,
{
    reveal_strlit("<|tool_call>");
    reveal_strlit("<tool_call|>");
    reveal_strlit("<|tool_call|>");
    reveal_strlit("<|\"|>");
    reveal_strlit("<|\\\"|");
    reveal_strlit("<|\\\"");
    reveal_strlit("<|\"");
    reveal_strlit("\"|>");
    reveal_strlit("<|\\");
    reveal_strlit("<|");
    reveal_strlit("|>");
    assert("<|tool_call>"@.subrange(0, 2) =~= "<|"@);
    assert("<tool_call|>"@.subrange(10, 12) =~= "|>"@);
    assert("<|tool_call|>"@.subrange(0, 2) =~= "<|"@);
    assert("<|\"|>"@.subrange(0, 2) =~= "<|"@);
    assert("<|\\\"|"@.subrange(0, 2) =~= "<|"@);
    assert("<|\\\""@.subrange(0, 2) =~= "<|"@);
    assert("<|\""@.subrange(0, 2) =~= "<|"@);
    assert("\"|>"@.subrange(1, 3) =~= "|>"@);
    assert("<|\\"@.subrange(0, 2) =~= "<|"@);
    lemma_part_absent(s, "<|tool_call>"@, "<|"@, 0);
    lemma_part_absent(s, "<tool_call|>"@, "|>"@, 10);
    lemma_part_absent(s, "<|tool_call|>"@, "<|"@, 0);
    lemma_part_absent(s, "<|\"|>"@, "<|"@, 0);
    lemma_part_absent(s, "<|\\\"|"@, "<|"@, 0);
    lemma_part_absent(s, "<|\\\""@, "<|"@, 0);
    lemma_part_absent(s, "<|\""@, "<|"@, 0);
    lemma_part_absent(s, "\"|>"@, "|>"@, 1);
    lemma_part_absent(s, "<|\\"@, "<|"@, 0);
    lemma_rewritten_absent(s, argument_rules());
}

/// Arguments that are JSON once leaked tokens are stripped are handed out so.
pub proof fn law_stripped_json_kept(raw: Seq<char>)
    requires
        json_of_text(rewritten(raw, argument_rules())) is Some,
    ensures
        repaired_arguments(raw) == rewritten(raw, argument_rules()),
{
}

/// Arguments that are JSON and hold no part of a leaked token are left as they
/// are.
pub proof fn law_clean_arguments_kept(s: Seq<char>)
    requires
        is_free_of_tokens(s),
        json_of_text(s) is Some,
    ensures
        repaired_arguments(s) == s,
{
    lemma_free_of_tokens(s);
    law_stripped_json_kept(s);
}

/// Where no run of quotes stands before the first empty string, be it a key, a
/// value or an element, nothing collapses.
pub proof fn law_empty_strings_kept(s: Seq<char>)
    requires
        !has_text(s, "\"\"\""@),
        forall|p: int| first_at(s, "\"\""@, p) ==> is_kept_pair(s, p),
    ensures
        collapsed(s) == s,
{
    if has_text(s, "\"\""@) {
        lemma_first_exists(s, "\"\""@, choose|i: int| occurs_at(s, "\"\""@, i));
    }
}

/// Content without half a delimiter is left as it is.
pub proof fn law_plain_content_kept(msg: JsonView)
    requires
        match text_of(msg.member("content"@)) {
            Some(content) => !has_text(content, "<|"@) && !has_text(content, "|>"@),
            None => true,
        },
    ensures
        with_sanitized_content(msg) == msg,
{
}

/// No run of three quotes is left after collapsing.
pub proof fn law_no_quote_runs(s: Seq<char>)
    ensures
        !has_text(collapsed(s), "\"\"\""@),
    decreases s.len(),
{
    reveal_strlit("\"\"\"");
    reveal_strlit("\"\"");
    reveal_strlit("\"");
    if has_text(s, "\"\"\""@) {
        lemma_replace_shortens(s, "\"\"\""@, "\""@);
        law_no_quote_runs(replace_all(s, "\"\"\""@, "\""@));
    } else if has_text(s, "\"\""@) {
        lemma_first_exists(s, "\"\""@, choose|i: int| occurs_at(s, "\"\""@, i));
        let p = choose|p: int| first_at(s, "\"\""@, p);
        if !is_kept_pair(s, p) {
            law_no_quote_runs(s.take(p) + "\""@ + s.skip(p + 2));
        }
    }
}

/// Repaired arguments are JSON wherever stripping, cleaning, or cleaning and
/// adding the missing braces makes them so.
pub proof fn law_repaired_is_json(raw: Seq<char>)
    ensures
        json_of_text(repaired_arguments(raw)) is Some <==> {
            let cleaned = cleaned_arguments(raw);
            json_of_text(rewritten(raw, argument_rules())) is Some || json_of_text(
                cleaned,
            ) is Some || (is_unbraced(cleaned) && json_of_text(
                braced(cleaned),
            ) is Some)
        },
{
}

/// Cleaning a tool call changes nothing but the arguments of its function: all
/// other members of the call, and all other members of the function, its name
/// among them, are what they were.  Arguments that are a text are repaired; what
/// is no text is left alone.
pub proof fn law_only_arguments_change(tc: JsonView, key: Seq<char>)
    ensures
        key != "function"@ ==> sanitized_call(tc).member(key) == tc.member(key),
        tc !is Object ==> sanitized_call(tc) == tc,
        match tc.member("function"@) {
            Some(f) => {
                &&& sanitized_call(tc).member("function"@) is Some
                &&& key != "arguments"@ ==> sanitized_call(tc).member("function"@)->0.member(key)
                    == f.member(key)
                &&& match f.member("arguments"@) {
                    Some(JsonView::Str(args)) => sanitized_call(tc).member(
                        "function"@,
                    )->0.member("arguments"@) == Some(JsonView::Str(repaired_arguments(args))),
                    _ => sanitized_call(tc) == tc,
                }
            },
            None => sanitized_call(tc) == tc,
        },
{
}

/// Cleaning a message changes nothing but its tool calls and its content.  There
/// are as many tool calls as before, each of them cleaned, in the same order.
/// Content that is a text loses its leaked tokens, and stays as it is where half
/// a delimiter is nowhere in it; what is no text is left alone.
pub proof fn law_only_calls_and_content_change(msg: JsonView, key: Seq<char>, i: int)
    ensures
        key != "tool_calls"@ && key != "content"@ ==> sanitized_message(msg).member(key)
            == msg.member(key),
        msg !is Object ==> sanitized_message(msg) == msg,
        match msg.member("tool_calls"@) {
            Some(JsonView::Array(calls)) => {
                let after = sanitized_message(msg).member("tool_calls"@);
                &&& after is Some && after->0 is Array
                &&& after->0->Array_0.len() == calls.len()
                &&& 0 <= i < calls.len() ==> after->0->Array_0[i] == sanitized_call(calls[i])
            },
            other => sanitized_message(msg).member("tool_calls"@) == other,
        },
        match msg.member("content"@) {
            Some(JsonView::Str(content)) => sanitized_message(msg).member("content"@) == Some(
                JsonView::Str(
                    if (exists|k: int| occurs_at(content, "<|"@, k)) || (exists|k: int|
                        occurs_at(content, "|>"@, k)) {
                        rewritten(content, content_rules())
                    } else {
                        content
                    },
                ),
            ),
            other => sanitized_message(msg).member("content"@) == other,
        },
{
    reveal_strlit("tool_calls");
    reveal_strlit("content");
    assert("tool_calls"@.len() != "content"@.len());
}

/// Of a request only the messages change: there are as many as before, each of
/// them cleaned, in the same order.
pub proof fn law_only_messages_change(body: JsonView, key: Seq<char>, i: int)
    ensures
        key != "messages"@ ==> Gemma4ToolCallFix.request(body).member(key) == body.member(key),
        body !is Object ==> Gemma4ToolCallFix.request(body) == body,
        match body.member("messages"@) {
            Some(JsonView::Array(messages)) => {
                let after = Gemma4ToolCallFix.request(body).member("messages"@);
                &&& after is Some && after->0 is Array
                &&& after->0->Array_0.len() == messages.len()
                &&& 0 <= i < messages.len() ==> after->0->Array_0[i] == sanitized_message(
                    messages[i],
                )
            },
            other => Gemma4ToolCallFix.request(body) == body,
        },
{
}

/// Of a response only the choices and the message change: the message is
/// cleaned; there are as many choices as before, in the same order, and in each
/// of them the message and the delta are cleaned and nothing else changes.
pub proof fn law_only_answers_change(body: JsonView, key: Seq<char>, i: int, k: Seq<char>)
    ensures
        key != "choices"@ && key != "message"@ ==> Gemma4ToolCallFix.response(body).member(key)
            == body.member(key),
        body !is Object ==> Gemma4ToolCallFix.response(body) == body,
        Gemma4ToolCallFix.response(body).member("message"@) == match body.member("message"@) {
            Some(msg) => Some(sanitized_message(msg)),
            None => None,
        },
        match body.member("choices"@) {
            Some(JsonView::Array(choices)) => {
                let after = Gemma4ToolCallFix.response(body).member("choices"@);
                &&& after is Some && after->0 is Array
                &&& after->0->Array_0.len() == choices.len()
                &&& 0 <= i < choices.len() ==> {
                    let choice = after->0->Array_0[i];
                    &&& choice.member(k) == match choices[i].member(k) {
                        Some(v) => if k == "message"@ || k == "delta"@ {
                            Some(sanitized_message(v))
                        } else {
                            Some(v)
                        },
                        None => None,
                    }
                    &&& choices[i] !is Object ==> choice == choices[i]
                }
            },
            other => Gemma4ToolCallFix.response(body).member("choices"@) == other,
        },
{
    reveal_strlit("choices");
    reveal_strlit("message");
    reveal_strlit("delta");
    assert("choices"@[0] != "message"@[0]);
    assert("message"@.len() != "delta"@.len());
}

/// Of a streaming chunk only the deltas of the choices and the message change:
/// they are cleaned; there are as many choices as before, in the same order.
pub proof fn law_only_deltas_change(chunk: JsonView, key: Seq<char>, i: int, k: Seq<char>)
    ensures
        key != "choices"@ && key != "message"@ ==> Gemma4ToolCallFix.response_chunk(
            chunk,
        ).member(key) == chunk.member(key),
        chunk !is Object ==> Gemma4ToolCallFix.response_chunk(chunk) == chunk,
        Gemma4ToolCallFix.response_chunk(chunk).member("message"@) == match chunk.member(
            "message"@,
        ) {
            Some(msg) => Some(sanitized_message(msg)),
            None => None,
        },
        match chunk.member("choices"@) {
            Some(JsonView::Array(choices)) => {
                let after = Gemma4ToolCallFix.response_chunk(chunk).member("choices"@);
                &&& after is Some && after->0 is Array
                &&& after->0->Array_0.len() == choices.len()
                &&& 0 <= i < choices.len() ==> {
                    let choice = after->0->Array_0[i];
                    &&& choice.member(k) == match choices[i].member(k) {
                        Some(v) => if k == "delta"@ {
                            Some(sanitized_message(v))
                        } else {
                            Some(v)
                        },
                        None => None,
                    }
                    &&& choices[i] !is Object ==> choice == choices[i]
                }
            },
            other => Gemma4ToolCallFix.response_chunk(chunk).member("choices"@) == other,
        },
{
    reveal_strlit("choices");
    reveal_strlit("message");
    assert("choices"@[0] != "message"@[0]);
}

/// Cleaning takes in requests and replies, and never makes up text for a reply
/// that is no JSON.
pub proof fn law_gemma_phase(raw: Seq<char>)
    ensures
        Gemma4ToolCallFix.phase_value() == ProcessorPhase::Both,
        Gemma4ToolCallFix.id_text() == "gemma4-tool-call-fix"@,
        Gemma4ToolCallFix.raw_response(raw) is None,
{
}

/// Of arguments that are no JSON once leaked tokens are stripped, those without
/// runs of quotes are handed out; in braces only if they are no JSON without
/// them, do not begin with a brace, hold a colon, and are JSON with them.
pub proof fn law_repair_choice(raw: Seq<char>)
    requires
        json_of_text(rewritten(raw, argument_rules())) is None,
    ensures
        ({
            let cleaned = collapsed(rewritten(raw, argument_rules()));
            let wrapped = seq!['{'] + cleaned + seq!['}'];
            repaired_arguments(raw) == if json_of_text(cleaned) is None && cleaned.contains(':')
                && !(cleaned.len() > 0 && cleaned[0] == '{') && json_of_text(wrapped) is Some {
                wrapped
            } else {
                cleaned
            }
        }),
{
    reveal_strlit("{");
    reveal_strlit("}");
    reveal_strlit(":");
    let cleaned = collapsed(rewritten(raw, argument_rules()));
    assert("{"@ =~= seq!['{']);
    assert("}"@ =~= seq!['}']);
    if cleaned.len() > 0 {
        assert(cleaned.subrange(0, 1) =~= seq![cleaned[0]]);
        assert(seq![cleaned[0]][0] == cleaned[0]);
        if cleaned[0] == '{' {
            assert(occurs_at(cleaned, "{"@, 0));
        }
        if occurs_at(cleaned, "{"@, 0) {
            assert(cleaned.subrange(0, 1)[0] == "{"@[0]);
        }
    }
    if cleaned.contains(':') {
        let k = choose|k: int| 0 <= k < cleaned.len() && cleaned[k] == ':';
        assert(cleaned.subrange(k, k + 1) =~= ":"@);
        assert(occurs_at(cleaned, ":"@, k));
    }
    if has_text(cleaned, ":"@) {
        let k = choose|k: int| occurs_at(cleaned, ":"@, k);
        assert(cleaned.subrange(k, k + 1)[0] == ':');
        assert(cleaned[k] == ':');
    }
}

/// Where two quotes at position `p` are an empty string.  A value stands behind a
/// colon or a space and before a comma, a closing bracket or the end.  A key stands at
/// the start or behind a brace, a comma or a blank, and before a colon; an element
/// stands behind a bracket or a comma, and before a comma or a bracket; of these two,
/// the quotes before them must be in pairs.
pub open spec fn stands_as_empty(s: Seq<char>, p: int) -> bool {
    let first = p == 0;
    let last = p + 2 >= s.len();
    let value = !first && (s[p - 1] == ':' || s[p - 1] == ' ') && (last || s[p + 2] == ',' || s[p
        + 2] == '}' || s[p + 2] == ']');
    let key = !last && s[p + 2] == ':' && (first || s[p - 1] == '{' || s[p - 1] == ',' || s[p - 1]
        == ' ' || s[p - 1] == '\t' || s[p - 1] == '\n' || s[p - 1] == '\r');
    let element = !first && !last && (s[p - 1] == '[' || s[p - 1] == ',') && (s[p + 2] == ','
        || s[p + 2] == ']');
    value || ((key || element) && open_quotes(s, p) % 2 == 0)
}

/// How runs of quotes collapse: a run of three becomes one quote, everywhere at once;
/// where there is none, the first pair becomes one quote; but if that is an empty
/// string, all stays as it is.
pub proof fn law_collapse_steps(s: Seq<char>, p: int)
    ensures
        has_text(s, seq!['"', '"', '"']) ==> collapsed(s) == collapsed(
            replace_all(s, seq!['"', '"', '"'], seq!['"']),
        ),
        !has_text(s, seq!['"', '"', '"']) && !has_text(s, seq!['"', '"']) ==> collapsed(s) == s,
        !has_text(s, seq!['"', '"', '"']) && occurs_at(s, seq!['"', '"'], p) && (forall|j: int|
            0 <= j < p ==> !occurs_at(s, seq!['"', '"'], j)) ==> collapsed(s) == if stands_as_empty(
            s,
            p,
        ) {
            s
        } else {
            collapsed(s.take(p) + s.skip(p + 1))
        },
{
    reveal_strlit("\"\"\"");
    reveal_strlit("\"\"");
    reveal_strlit("\"");
    assert("\"\"\""@ =~= seq!['"', '"', '"']);
    assert("\"\""@ =~= seq!['"', '"']);
    assert("\""@ =~= seq!['"']);
    if !has_text(s, "\"\"\""@) && first_at(s, "\"\""@, p) {
        lemma_first_unique(s, "\"\""@, p);
        assert(s.subrange(p, p + 2)[1] == s[p + 1]);
        assert(s.take(p) + "\""@ + s.skip(p + 2) =~= s.take(p) + s.skip(p + 1));
        assert(is_kept_pair(s, p) == stands_as_empty(s, p));
    }
}

/// Collapsing takes out quotes and nothing else: all other characters stay, in their
/// order.
pub proof fn law_only_quotes_go(s: Seq<char>)
    ensures
        collapsed(s).filter(|c: char| c != '"') == s.filter(|c: char| c != '"'),
        collapsed(s).len() <= s.len(),
    decreases s.len(),
{
    let f = |c: char| c != '"';
    reveal_strlit("\"\"\"");
    reveal_strlit("\"\"");
    reveal_strlit("\"");
    if has_text(s, "\"\"\""@) {
        lemma_replace_shortens(s, "\"\"\""@, "\""@);
        lemma_replace_keeps(s, "\"\"\""@, "\""@);
        law_only_quotes_go(replace_all(s, "\"\"\""@, "\""@));
    } else if has_text(s, "\"\""@) {
        lemma_first_exists(s, "\"\""@, choose|i: int| occurs_at(s, "\"\""@, i));
        let p = choose|p: int| first_at(s, "\"\""@, p);
        if !is_kept_pair(s, p) {
            let next = s.take(p) + "\""@ + s.skip(p + 2);
            law_only_quotes_go(next);
            let pair = s.subrange(p, p + 2);
            assert(s =~= s.take(p) + pair + s.skip(p + 2));
            Seq::filter_distributes_over_add(s.take(p) + pair, s.skip(p + 2), f);
            Seq::filter_distributes_over_add(s.take(p), pair, f);
            Seq::filter_distributes_over_add(s.take(p) + "\""@, s.skip(p + 2), f);
            Seq::filter_distributes_over_add(s.take(p), "\""@, f);
            lemma_filter_none(pair, f);
            lemma_filter_none("\""@, f);
        }
    }
}

/// Replacing quotes by quotes leaves all other characters.
proof fn lemma_replace_keeps(s: Seq<char>, from: Seq<char>, to: Seq<char>)
    requires
        from.len() > 0,
        forall|i: int| 0 <= i < from.len() ==> #[trigger] from[i] == '"',
        forall|i: int| 0 <= i < to.len() ==> #[trigger] to[i] == '"',
    ensures
        replace_all(s, from, to).filter(|c: char| c != '"') == s.filter(|c: char| c != '"'),
    decreases s.len(),
{
    let f = |c: char| c != '"';
    if s.len() > 0 {
        if begins_with(s, from) {
            let rest = s.skip(from.len() as int);
            lemma_replace_keeps(rest, from, to);
            assert(s =~= from + rest);
            Seq::filter_distributes_over_add(from, rest, f);
            Seq::filter_distributes_over_add(to, replace_all(rest, from, to), f);
            lemma_filter_none(from, f);
            lemma_filter_none(to, f);
        } else {
            let rest = s.skip(1);
            lemma_replace_keeps(rest, from, to);
            assert(s =~= seq![s[0]] + rest);
            Seq::filter_distributes_over_add(seq![s[0]], rest, f);
            Seq::filter_distributes_over_add(seq![s[0]], replace_all(rest, from, to), f);
        }
    }
}

/// Quotes are counted one by one, and one that is escaped does not count: it is if an
/// odd number of backslashes stands right before it.
pub proof fn law_quotes_counted(a: Seq<char>, backslashes: Seq<char>, c: char, b: Seq<char>)
    requires
        a.len() > 0 ==> a.last() != '\\',
        forall|i: int| 0 <= i < backslashes.len() ==> #[trigger] backslashes[i] == '\\',
    ensures
        ({
            let s = a + backslashes + seq![c] + b;
            let n = (a + backslashes).len() as int;
            &&& open_quotes(s, 0) == 0
            &&& open_quotes(s, n + 1) == open_quotes(s, n) + if c == '"' && backslashes.len() % 2
                == 0 {
                1int
            } else {
                0int
            }
        }),
{
    let s = a + backslashes + seq![c] + b;
    lemma_escaped(a, backslashes, seq![c] + b, backslashes.len() as int);
    assert(s =~= a + backslashes + (seq![c] + b));
    assert(s[(a + backslashes).len() as int] == c);
}

/// What stands behind backslashes is escaped if their number is odd.
proof fn lemma_escaped(a: Seq<char>, backslashes: Seq<char>, b: Seq<char>, k: int)
    requires
        a.len() > 0 ==> a.last() != '\\',
        forall|i: int| 0 <= i < backslashes.len() ==> #[trigger] backslashes[i] == '\\',
        0 <= k <= backslashes.len(),
    ensures
        is_escaped(a + backslashes + b, a.len() + k) == (k % 2 == 1),
    decreases k,
{
    let s = a + backslashes + b;
    if k > 0 {
        lemma_escaped(a, backslashes, b, k - 1);
        assert(s[a.len() + k - 1] == backslashes[k - 1]);
    } else if a.len() > 0 {
        assert(s[a.len() - 1] == a.last());
    }
}

} // verus!
