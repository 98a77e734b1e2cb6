//! What the command line prints: for people or for programs.

use vstd::prelude::*;

use crate::text;
use crate::text::signed_digits;

verus! {

/// Whom the output is for.
#[derive(Debug, Clone, Copy, PartialEq, Eq, Structural)]
pub enum OutputMode {
    Human,
    Json,
}

/// A hexadecimal digit.
pub open spec fn hex_digit(d: u32) -> char {
    if d < 10 {
        ('0' as u32 + d) as char
    } else {
        ('a' as u32 + d - 10) as char
    }
}

/// How a character is written in a JSON string.
pub open spec fn json_char(c: char) -> Seq<char> {
    if c == '"' || c == '\\' {
        seq!['\\', c]
    } else if c == '\u{8}' {
        seq!['\\', 'b']
    } else if c == '\u{c}' {
        seq!['\\', 'f']
    } else if c == '\n' {
        seq!['\\', 'n']
    } else if c == '\r' {
        seq!['\\', 'r']
    } else if c == '\t' {
        seq!['\\', 't']
    } else if c as u32 <= 0x1f {
        seq!['\\', 'u', '0', '0', hex_digit(c as u32 / 16), hex_digit(c as u32 % 16)]
    } else {
        seq![c]
    }
}

/// How a text is written in JSON: in quotation marks, with quotation marks,
/// backslashes and control characters escaped.
pub open spec fn json_string(s: Seq<char>) -> Seq<char> {
    seq!['"'] + s.map_values(|c: char| json_char(c)).flatten() + seq!['"']
}

/// Writes a text as JSON with the `Display` of `serde_json::Value::String`, which
/// escapes quotation marks, backslashes and the control characters below the space,
/// five of them by a letter and the others by their number, and nothing else.
#[verifier::external_body]
pub(crate) fn json_quoted(s: &str) -> (r: String)
    ensures
        r@ == json_string(s@),
{
    serde_json::Value::String(s.to_owned()).to_string()
}

/// How an error is printed, given how its message is written in JSON.
pub open spec fn error_text(mode: OutputMode, msg: Seq<char>, code: i32, quoted: Seq<char>) -> Seq<
    char,
> {
    match mode {
        OutputMode::Json => "{\"code\":"@ + signed_digits(code as int) + ",\"error\":"@ + quoted
            + "}"@,
        OutputMode::Human => "servant: "@ + msg,
    }
}

/// The line that reports an error, given how its message is written in JSON.
pub fn error_line(mode: OutputMode, msg: &str, code: i32, quoted: &str) -> (r: String)
    ensures
        r@ == error_text(mode, msg@, code, quoted@),
{
    match mode {
        OutputMode::Json => {
            let number: String = text::decimal_signed(code as i64);
            let mut out: String = text::joined3("{\"code\":", number.as_str(), ",\"error\":");
            out.append(quoted);
            out.append("}");
            out
        },
        OutputMode::Human => text::joined("servant: ", msg),
    }
}

/// The line that reports an error.
pub fn print_error(mode: OutputMode, msg: &str, code: i32) -> (r: String)
    ensures
        r@ == error_text(mode, msg@, code, json_string(msg@)),
{
    let quoted: String = json_quoted(msg);
    error_line(mode, msg, code, quoted.as_str())
}

/// An error is printed for people behind the program's name, and for programs as an
/// object with its code and its message.
pub proof fn lemma_error_text(msg: Seq<char>, code: i32, quoted: Seq<char>)
    ensures
        error_text(OutputMode::Human, msg, code, quoted) == "servant: "@ + msg,
        code >= 0 ==> error_text(OutputMode::Json, msg, code, quoted) == "{\"code\":"@
            + text::digits(code as nat) + ",\"error\":"@ + quoted + "}"@,
{
}

/// A text that holds no quotation marks, backslashes or control characters stands in
/// JSON as it is, between quotation marks.
pub proof fn lemma_plain_json_string(s: Seq<char>)
    requires
        forall|i: int|
            0 <= i < s.len() ==> (#[trigger] s[i]) as u32 > 0x1f && s[i] != '"' && s[i] != '\\',
    ensures
        json_string(s) == seq!['"'] + s + seq!['"'],
{
    lemma_plain_json(s);
}

proof fn lemma_plain_json(s: Seq<char>)
    requires
        forall|i: int|
            0 <= i < s.len() ==> (#[trigger] s[i]) as u32 > 0x1f && s[i] != '"' && s[i] != '\\',
    ensures
        s.map_values(|c: char| json_char(c)).flatten() == s,
    decreases s.len(),
{
    let f = |c: char| json_char(c);
    if s.len() > 0 {
        let rest = s.drop_first();
        lemma_plain_json(rest);
        assert(s.map_values(f).drop_first() =~= rest.map_values(f));
        assert(s.map_values(f).first() == json_char(s[0]));
        assert(seq![s[0]] + rest =~= s);
    } else {
        assert(s.map_values(f) =~= Seq::empty());
    }
}

} // verus!
