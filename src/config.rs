//! Site configuration and its JSON form for the entry module.

use vstd::prelude::*;

verus! {

/// Site-wide settings injected into the entry module.
pub struct Config {
    pub title: String,
}

/// The lowercase hexadecimal digit `d`, below 16.
pub open spec fn hex_digit(d: u32) -> char {
    if d < 10 {
        ((48 + d) as u8) as char
    } else {
        ((87 + d) as u8) as char
    }
}

/// How JSON writes one character inside a string literal: quote and
/// backslash escaped, the usual short escapes for backspace, tab, line
/// feed, form feed and carriage return, `\u00xx` for the other control
/// characters, and every other character as it is.
pub open spec fn json_escape_char(c: char) -> Seq<char> {
    if c == '"' {
        seq!['\\', '"']
    } else if c == '\\' {
        seq!['\\', '\\']
    } else if c == '\u{8}' {
        seq!['\\', 'b']
    } else if c == '\t' {
        seq!['\\', 't']
    } else if c == '\n' {
        seq!['\\', 'n']
    } else if c == '\u{c}' {
        seq!['\\', 'f']
    } else if c == '\r' {
        seq!['\\', 'r']
    } else if (c as u32) < 32 {
        seq!['\\', 'u', '0', '0', hex_digit(c as u32 / 16), hex_digit(c as u32 % 16)]
    } else {
        seq![c]
    }
}

/// The characters of `s`, each written as JSON writes it in a string.
pub open spec fn json_escaped(s: Seq<char>) -> Seq<char>
    decreases s.len(),
{
    if s.len() == 0 {
        Seq::empty()
    } else {
        json_escaped(s.drop_last()) + json_escape_char(s.last())
    }
}

/// The JSON string literal of `s`.
pub open spec fn json_quoted(s: Seq<char>) -> Seq<char> {
    seq!['"'] + json_escaped(s) + seq!['"']
}

/// Relies on `serde_json::to_string` on a `str`: the string literal between
/// quotes, escaped by serde_json's table; writing into a `Vec` cannot fail.
#[verifier::external_body]
fn json_string(s: &str) -> (r: Option<String>)
    ensures
        r is Some,
        r->0@ == json_quoted(s@),
{
    serde_json::to_string(s).ok()
}

/// The JSON object of a configuration whose title is written `title_json`.
pub open spec fn config_text(title_json: Seq<char>) -> Seq<char> {
    "{\"title\":"@ + title_json + "}"@
}

/// Frames an already written JSON title as the configuration object.
pub fn frame_config(title_json: &str) -> (r: String)
    ensures
        r@ == config_text(title_json@),
{
    let mut out = String::from_str("{\"title\":");
    out.append(title_json);
    out.append("}");
    out
}

/// The configuration as compact JSON, as serde writes the struct.
pub fn config_json(config: &Config) -> (r: String)
    ensures
        r@ == config_text(json_quoted(config.title@)),
{
    let q = json_string(config.title.as_str()).unwrap();
    frame_config(q.as_str())
}

} // verus!
