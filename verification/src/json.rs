//! The JSON texts the library exchanges with the AI service, through `serde_json`.
use vstd::prelude::*;

verus! {

/// A lower-case hexadecimal digit (`0 <= d < 16`).
pub open spec fn hex_digit(d: int) -> char {
    if d < 10 {
        ((48 + d) as u8) as char
    } else {
        ((87 + d) as u8) as char
    }
}

/// How `serde_json` writes one character inside a string literal: `"` and `\` behind a
/// backslash, backspace, tab, line feed, form feed and carriage return as `\b`, `\t`, `\n`,
/// `\f` and `\r`, the other control characters below U+0020 as `\u00XX`, and every other
/// character as it is.
pub open spec fn json_char_escape(c: char) -> Seq<char> {
    if c == '"' {
        seq!['\\', '"']
    } else if c == '\\' {
        seq!['\\', '\\']
    } else if c == '\u{8}' {
        seq!['\\', 'b']
    } else if c == '\t' {
        seq!['\\', 't']
    } else if c == '\n' {
        seq!['\\', 'n']
    } else if c == '\u{c}' {
        seq!['\\', 'f']
    } else if c == '\r' {
        seq!['\\', 'r']
    } else if (c as u32) < 0x20 {
        seq!['\\', 'u', '0', '0', hex_digit((c as int) / 16), hex_digit((c as int) % 16)]
    } else {
        seq![c]
    }
}

/// The characters of `s`, each written as `json_char_escape` says.
pub open spec fn json_escaped(s: Seq<char>) -> Seq<char>
    decreases s.len(),
{
    if s.len() == 0 {
        Seq::<char>::empty()
    } else {
        json_escaped(s.drop_last()) + json_char_escape(s.last())
    }
}

/// The JSON string literal that `serde_json` writes for `s`: the escaped characters between
/// double quotes.
pub open spec fn json_string_literal(s: Seq<char>) -> Seq<char> {
    seq!['"'] + json_escaped(s) + seq!['"']
}

/// Writes `s` as a JSON string literal with `serde_json` (the `Display` of `Value::String`,
/// which escapes through its `ESCAPE` table and `write_char_escape`).
#[verifier::external_body]
pub(crate) fn json_quote(s: &str) -> (r: String)
    ensures
        r@ == json_string_literal(s@),
{
    serde_json::Value::String(s.to_string()).to_string()
}

/// The string that `serde_json` finds under `key` when `text` parses as a JSON object; `None`
/// when it does not parse, is not an object, lacks `key`, or holds something else there.
pub uninterp spec fn json_text_field(text: Seq<char>, key: Seq<char>) -> Option<Seq<char>>;

/// Reads the string field `key` of the JSON object `text` with `serde_json`. Claims that the
/// result is a function of `text` and `key`, and that the empty object `{}` has no field.
#[verifier::external_body]
pub(crate) fn read_text_field(text: &str, key: &str) -> (r: Option<String>)
    ensures
        r matches Some(v) ==> json_text_field(text@, key@) == Some(v@),
        r is None ==> json_text_field(text@, key@) is None,
        text@ == "{}"@ ==> r is None,
{
    match serde_json::from_str::<serde_json::Value>(text) {
        Ok(v) => match v.get(key) {
            Some(serde_json::Value::String(s)) => Some(s.clone()),
            _ => None,
        },
        Err(_) => None,
    }
}

/// The integer that `serde_json` finds under `key` when `text` parses as a JSON object and the
/// field is a number that `as_i64` accepts (an integer in the range of `i64`).
pub uninterp spec fn json_int_field(text: Seq<char>, key: Seq<char>) -> Option<i64>;

/// Reads the integer field `key` of the JSON object `text` with `serde_json` (`as_i64`).
/// Claims that the result is a function of `text` and `key`, and that the empty object `{}`
/// has no field.
#[verifier::external_body]
pub(crate) fn read_int_field(text: &str, key: &str) -> (r: Option<i64>)
    ensures
        r == json_int_field(text@, key@),
        text@ == "{}"@ ==> r is None,
{
    match serde_json::from_str::<serde_json::Value>(text) {
        Ok(v) => match v.get(key) {
            Some(f) => f.as_i64(),
            None => None,
        },
        Err(_) => None,
    }
}

} // verus!

verus! {

/// The text of an optional string.
pub open spec fn opt_view(o: Option<String>) -> Option<Seq<char>> {
    match o {
        Some(s) => Some(s@),
        None => None,
    }
}

/// What `serde_json` makes of a chat-completion response body: `Err` with its message when the
/// body is not JSON, otherwise the string at `choices[0].message.content`, if there is one.
pub uninterp spec fn completion_content(body: Seq<char>) -> Result<Option<Seq<char>>, Seq<char>>;

/// Parses a chat-completion response body with `serde_json` and reads the string at
/// `choices[0].message.content`. Claims only that the result is a function of `body`.
#[verifier::external_body]
pub(crate) fn read_completion_content(body: &str) -> (r: Result<Option<String>, String>)
    ensures
        match r {
            Ok(c) => completion_content(body@) == Ok::<Option<Seq<char>>, Seq<char>>(opt_view(c)),
            Err(e) => completion_content(body@) == Err::<Option<Seq<char>>, Seq<char>>(e@),
        },
{
    match serde_json::from_str::<serde_json::Value>(body) {
        Ok(v) => Ok(v["choices"][0]["message"]["content"].as_str().map(|s| s.to_string())),
        Err(e) => Err(e.to_string()),
    }
}

/// A tool call as read from a reply: its function name, its arguments and its id, each when it
/// is a string.
pub type RawToolCall = (Option<String>, Option<String>, Option<String>);

/// The texts of the parts of a tool call.
pub open spec fn raw_call_view(c: RawToolCall) -> (Option<Seq<char>>, Option<Seq<char>>, Option<Seq<char>>) {
    (opt_view(c.0), opt_view(c.1), opt_view(c.2))
}

/// The texts of a list of tool calls.
pub open spec fn raw_calls_view(v: Seq<RawToolCall>) -> Seq<(Option<Seq<char>>, Option<Seq<char>>, Option<Seq<char>>)> {
    v.map_values(|c: RawToolCall| raw_call_view(c))
}

/// What `serde_json` makes of a chat-completion response body: `Err` with its message when the
/// body is not JSON; otherwise, when `choices[0].message.tool_calls` is an array, the
/// `function.name`, `function.arguments` and `id` strings of each of its entries.
pub uninterp spec fn completion_tool_calls(body: Seq<char>) -> Result<
    Option<Seq<(Option<Seq<char>>, Option<Seq<char>>, Option<Seq<char>>)>>,
    Seq<char>,
>;

/// Parses a chat-completion response body with `serde_json` and reads the tool calls of its
/// first choice. Claims only that the result is a function of `body`.
#[verifier::external_body]
pub(crate) fn read_tool_calls(body: &str) -> (r: Result<Option<Vec<RawToolCall>>, String>)
    ensures
        match r {
            Ok(Some(v)) => completion_tool_calls(body@) == Ok::<_, Seq<char>>(Some(raw_calls_view(v@))),
            Ok(None) => completion_tool_calls(body@) == Ok::<_, Seq<char>>(
                None::<Seq<(Option<Seq<char>>, Option<Seq<char>>, Option<Seq<char>>)>>,
            ),
            Err(e) => completion_tool_calls(body@) == Err::<
                Option<Seq<(Option<Seq<char>>, Option<Seq<char>>, Option<Seq<char>>)>>,
                Seq<char>,
            >(e@),
        },
{
    let text = |v: &serde_json::Value| v.as_str().map(|s| s.to_string());
    match serde_json::from_str::<serde_json::Value>(body) {
        Ok(v) => Ok(v["choices"][0]["message"]["tool_calls"].as_array().map(|calls| {
            calls.iter().map(|tc| (text(&tc["function"]["name"]), text(&tc["function"]["arguments"]), text(&tc["id"]))).collect()
        })),
        Err(e) => Err(e.to_string()),
    }
}

} // verus!
