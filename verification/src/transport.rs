//! The transport of output events to a front end that evaluates script text:
//! a message travels as the call `append_output("...")`, its text written as
//! a JSON string.

use vstd::prelude::*;
use vstd::string::*;

verus! {

/// `serde_json::Error`; carried from the serialiser to the error of this
/// module.
#[verifier::external_type_specification]
#[verifier::external_body]
pub struct ExJsonError(serde_json::Error);

/// Why a message could not be prepared for the transport.
#[derive(Clone, Copy, Debug, PartialEq, Eq)]
pub enum TransportError {
    /// The message could not be written as a JSON string.
    Serialization,
}

/// The lower-case hexadecimal digit of a value below sixteen.
pub open spec fn hex_digit(value: int) -> char {
    if value < 10 {
        (0x30 + value) as char
    } else {
        (0x61 + value - 10) as char
    }
}

/// The value of a hexadecimal digit, of either case.
pub open spec fn hex_value(digit: char) -> Option<int> {
    let n = digit as int;
    if 0x30 <= n <= 0x39 {
        Some(n - 0x30)
    } else if 0x61 <= n <= 0x66 {
        Some(n - 0x61 + 10)
    } else if 0x41 <= n <= 0x46 {
        Some(n - 0x41 + 10)
    } else {
        None
    }
}

/// How one character stands inside a JSON string: the quote, the backslash
/// and the control characters are escaped, every other character stands for
/// itself.
pub open spec fn escape_char(c: char) -> Seq<char> {
    let n = c as int;
    if c == '"' {
        seq!['\\', '"']
    } else if c == '\\' {
        seq!['\\', '\\']
    } else if n == 0x08 {
        seq!['\\', 'b']
    } else if n == 0x09 {
        seq!['\\', 't']
    } else if n == 0x0A {
        seq!['\\', 'n']
    } else if n == 0x0C {
        seq!['\\', 'f']
    } else if n == 0x0D {
        seq!['\\', 'r']
    } else if n < 0x20 {
        seq!['\\', 'u', '0', '0', hex_digit(n / 16), hex_digit(n % 16)]
    } else {
        seq![c]
    }
}

/// A text with each character escaped.
pub open spec fn escape(text: Seq<char>) -> Seq<char>
    decreases text.len(),
{
    if text.len() == 0 {
        seq![]
    } else {
        escape_char(text[0]) + escape(text.drop_first())
    }
}

/// A text as a JSON string: escaped, between quotes.
pub open spec fn json_quoted(text: Seq<char>) -> Seq<char> {
    seq!['"'] + escape(text) + seq!['"']
}

/// The character that the escape `\e` stands for, if it is a short escape.
pub open spec fn short_escape(e: char) -> Option<char> {
    if e == '"' {
        Some('"')
    } else if e == '\\' {
        Some('\\')
    } else if e == '/' {
        Some('/')
    } else if e == 'b' {
        Some(0x08 as char)
    } else if e == 't' {
        Some(0x09 as char)
    } else if e == 'n' {
        Some(0x0A as char)
    } else if e == 'f' {
        Some(0x0C as char)
    } else if e == 'r' {
        Some(0x0D as char)
    } else {
        None
    }
}

/// The character whose code four hexadecimal digits spell, where they spell one.
pub open spec fn hex_escape(a: char, b: char, c: char, d: char) -> Option<char> {
    match (hex_value(a), hex_value(b), hex_value(c), hex_value(d)) {
        (Some(h3), Some(h2), Some(h1), Some(h0)) => {
            let code = ((h3 * 16 + h2) * 16 + h1) * 16 + h0;
            if code < 0xD800 || 0xE000 <= code {
                Some(code as char)
            } else {
                None
            }
        },
        _ => None,
    }
}

/// `head` in front of what the rest decodes to.
pub open spec fn prepend(head: Option<char>, rest: Option<Seq<char>>) -> Option<Seq<char>> {
    match (head, rest) {
        (Some(c), Some(r)) => Some(seq![c] + r),
        _ => None,
    }
}

/// What the receiving side reads out of the inside of a JSON string, or
/// `None` where the text is no such inside: a bare quote, a bare control
/// character, or an escape that does not exist.
pub open spec fn unescape(text: Seq<char>) -> Option<Seq<char>>
    decreases text.len(),
{
    if text.len() == 0 {
        Some(seq![])
    } else if text[0] == '"' || (text[0] as int) < 0x20 {
        None
    } else if text[0] != '\\' {
        prepend(Some(text[0]), unescape(text.skip(1)))
    } else if text.len() < 2 {
        None
    } else if text[1] == 'u' {
        if text.len() < 6 {
            None
        } else {
            prepend(hex_escape(text[2], text[3], text[4], text[5]), unescape(text.skip(6)))
        }
    } else {
        prepend(short_escape(text[1]), unescape(text.skip(2)))
    }
}

/// What the receiving side reads out of a JSON string.
pub open spec fn json_unquoted(text: Seq<char>) -> Option<Seq<char>> {
    if text.len() >= 2 && text[0] == '"' && text.last() == '"' {
        unescape(text.subrange(1, text.len() - 1))
    } else {
        None
    }
}

/// The call that carries `message` to the front end.
pub open spec fn output_call(message: Seq<char>) -> Seq<char> {
    "append_output("@ + json_quoted(message) + ")"@
}

/// The message that a call carries, where the text is such a call.
pub open spec fn carried_message(call: Seq<char>) -> Option<Seq<char>> {
    let head = "append_output("@;
    let tail = ")"@;
    if call.len() >= head.len() + tail.len() && call.take(head.len() as int) == head && call.skip(
        call.len() - tail.len(),
    ) == tail {
        json_unquoted(call.subrange(head.len() as int, call.len() - tail.len()))
    } else {
        None
    }
}

/// A digit reads back as the value it was written for.
proof fn lemma_hex_digit_value(value: int)
    requires
        0 <= value < 16,
    ensures
        hex_value(hex_digit(value)) == Some(value),
{
}

/// An escaped character in front of a text reads back as that character in
/// front of what the text reads back as.
proof fn lemma_unescape_char(c: char, rest: Seq<char>)
    ensures
        unescape(escape_char(c) + rest) == prepend(Some(c), unescape(rest)),
{
    let n = c as int;
    let text = escape_char(c) + rest;
    if c == '"' || c == '\\' || n == 0x08 || n == 0x09 || n == 0x0A || n == 0x0C || n == 0x0D {
        assert(text[0] == '\\');
        assert(text.skip(2) =~= rest);
        assert(short_escape(text[1]) == Some(c));
    } else if n < 0x20 {
        lemma_hex_digit_value(n / 16);
        lemma_hex_digit_value(n % 16);
        assert(text[0] == '\\' && text[1] == 'u');
        assert(text[2] == '0' && text[3] == '0');
        assert(text[4] == hex_digit(n / 16) && text[5] == hex_digit(n % 16));
        assert(hex_value('0') == Some(0int));
        assert(((0 * 16 + 0) * 16 + n / 16) * 16 + n % 16 == n);
        assert(hex_escape(text[2], text[3], text[4], text[5]) == Some(c));
        assert(text.skip(6) =~= rest);
    } else {
        assert(text[0] == c);
        assert(text.skip(1) =~= rest);
    }
}

/// Escaping loses nothing: the inside of the JSON string of a text reads
/// back as that text.
pub proof fn lemma_escape_round_trip(text: Seq<char>)
    ensures
        unescape(escape(text)) == Some(text),
    decreases text.len(),
{
    if text.len() > 0 {
        lemma_escape_round_trip(text.drop_first());
        lemma_unescape_char(text[0], escape(text.drop_first()));
        assert(seq![text[0]] + text.drop_first() =~= text);
    }
}

/// Whatever the message holds, newlines, quotes and characters outside ASCII
/// included, the call that carries it hands exactly that message to the
/// receiving side.
pub proof fn lemma_message_round_trip(message: Seq<char>)
    ensures
        json_unquoted(json_quoted(message)) == Some(message),
        carried_message(output_call(message)) == Some(message),
{
    lemma_escape_round_trip(message);
    let quoted = json_quoted(message);
    assert(quoted.subrange(1, quoted.len() - 1) =~= escape(message));
    assert(quoted.last() == '"');
    reveal_strlit("append_output(");
    reveal_strlit(")");
    let head = "append_output("@;
    let tail = ")"@;
    let call = output_call(message);
    assert(call.take(head.len() as int) =~= head);
    assert(call.skip(call.len() - tail.len()) =~= tail);
    assert(call.subrange(head.len() as int, call.len() - tail.len()) =~= quoted);
}

/// `serde_json::to_string` on a string slice: the slice as a JSON string.
/// The call cannot fail on a string: it writes into memory, and a string has
/// neither a serialiser of its own that could refuse nor map keys.
#[verifier::external_body]
fn to_json_string(message: &str) -> (result: Result<String, serde_json::Error>)
    ensures
        result is Ok,
        result matches Ok(text) ==> text@ == json_quoted(message@),
{
    serde_json::to_string(message)
}

/// Builds the script text that hands `message` to the front end's
/// `append_output`.
pub fn append_output_script(message: &str) -> (result: Result<String, TransportError>)
    ensures
        result is Ok,
        result matches Ok(script) ==> script@ == output_call(message@),
{
    match to_json_string(message) {
        Ok(escaped) => {
            let mut script = String::from_str("append_output(");
            script.append(escaped.as_str());
            script.append(")");
            Ok(script)
        },
        Err(_) => Err(TransportError::Serialization),
    }
}

} // verus!
