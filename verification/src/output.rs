//! What the agent writes: the lines of kept groups, as text or as JSON, the
//! alert payload, and the saving reported at the end.
use vstd::prelude::*;

use crate::json::{
    json_escape, json_quoted, json_string_literal, json_unescape, lemma_json_escape_decodes,
    lemma_json_escape_printable,
};
use crate::text::{
    chars_of, decimal, decimal_value, lemma_decimal_digits, lemma_decimal_reads_back, push_all,
    push_decimal, string_of,
};

verus! {

broadcast use vstd::string::group_string_axioms;

/// The text line of a group: `[xN] message` where it repeated, `[+] message`
/// where it came once.
pub open spec fn text_line(count: u32, message: Seq<char>) -> Seq<char> {
    if count > 1 {
        "[x"@ + decimal(count as nat) + "] "@ + message + "\n"@
    } else {
        "[+] "@ + message + "\n"@
    }
}

/// The JSON line of a group: an object with members `count`, `message` and
/// `timestamp`, in that order.
pub open spec fn json_line(count: u32, message: Seq<char>, timestamp: Seq<char>) -> Seq<char> {
    "{\"count\":"@ + decimal(count as nat) + ",\"message\":"@ + json_string_literal(message)
        + ",\"timestamp\":"@ + json_string_literal(timestamp) + "}\n"@
}

/// The text of an alert about `message` repeated `count` times.
pub open spec fn alert_content(count: u32, message: Seq<char>) -> Seq<char> {
    "**ALERTE CRITIQUE**\nMessage repete **"@ + decimal(count as nat) + " fois**\n`"@ + message
        + "`"@
}

/// The JSON body posted to the webhook: an object whose member `content` is
/// the alert text.
pub open spec fn alert_body(count: u32, message: Seq<char>) -> Seq<char> {
    "{\"content\":"@ + json_string_literal(alert_content(count, message)) + "}"@
}

/// The line written for a group kept in text format.
pub fn format_text_line(count: u32, message: &str) -> (res: String)
    ensures
        res@ == text_line(count, message@),
{
    let mut out: Vec<char>;
    if count > 1 {
        out = chars_of("[x");
        push_decimal(&mut out, count as u64);
        push_all(&mut out, &chars_of("] "));
    } else {
        out = chars_of("[+] ");
    }
    push_all(&mut out, &chars_of(message));
    push_all(&mut out, &chars_of("\n"));
    string_of(&out)
}

/// The line written for a group kept in JSON format, stamped `timestamp`.
pub fn format_json_line(count: u32, message: &str, timestamp: &str) -> (res: String)
    ensures
        res@ == json_line(count, message@, timestamp@),
{
    let mut out = chars_of("{\"count\":");
    push_decimal(&mut out, count as u64);
    push_all(&mut out, &chars_of(",\"message\":"));
    push_all(&mut out, &chars_of(&json_quoted(message)));
    push_all(&mut out, &chars_of(",\"timestamp\":"));
    push_all(&mut out, &chars_of(&json_quoted(timestamp)));
    push_all(&mut out, &chars_of("}\n"));
    string_of(&out)
}

/// The text of an alert about `message` repeated `count` times.
pub fn format_alert_content(count: u32, message: &str) -> (res: String)
    ensures
        res@ == alert_content(count, message@),
{
    let mut out = chars_of("**ALERTE CRITIQUE**\nMessage repete **");
    push_decimal(&mut out, count as u64);
    push_all(&mut out, &chars_of(" fois**\n`"));
    push_all(&mut out, &chars_of(message));
    push_all(&mut out, &chars_of("`"));
    string_of(&out)
}

/// The JSON body posted to the webhook for `message` repeated `count` times.
pub fn format_alert_body(count: u32, message: &str) -> (res: String)
    ensures
        res@ == alert_body(count, message@),
{
    let content = format_alert_content(count, message);
    let mut out = chars_of("{\"content\":");
    push_all(&mut out, &chars_of(&json_quoted(&content)));
    push_all(&mut out, &chars_of("}"));
    string_of(&out)
}

/// The share of lines saved, in percent: 100 minus the share of lines kept
/// (each as `sent * 100 / total`, rounded down).
pub fn reduction_percent(sent: u64, total: u64) -> (res: u64)
    requires
        total > 0,
        sent <= total,
        sent * 100 <= u64::MAX,
    ensures
        res == 100 - (sent * 100) / (total as int),
        res <= 100,
{
    let kept = sent * 100 / total;
    assert(kept <= 100) by (nonlinear_arith)
        requires
            kept == (sent * 100) / (total as int),
            sent <= total,
            total > 0,
    ;
    100 - kept
}

/// No character of `s` is a line feed.
pub open spec fn has_no_line_break(s: Seq<char>) -> bool {
    forall|i: int| 0 <= i < s.len() ==> s[i] != '\n'
}

proof fn lemma_no_line_break_concat(a: Seq<char>, b: Seq<char>)
    requires
        has_no_line_break(a),
        has_no_line_break(b),
    ensures
        has_no_line_break(a + b),
{
    assert forall|i: int| 0 <= i < (a + b).len() implies (a + b)[i] != '\n' by {
        if i >= a.len() {
            assert((a + b)[i] == b[i - a.len()]);
        } else {
            assert((a + b)[i] == a[i]);
        }
    }
}

proof fn lemma_escaped_no_line_break(s: Seq<char>)
    ensures
        has_no_line_break(json_escape(s)),
        has_no_line_break(json_string_literal(s)),
{
    lemma_json_escape_printable(s);
    assert forall|i: int| 0 <= i < json_escape(s).len() implies json_escape(s)[i] != '\n' by {
        assert(json_escape(s)[i] as u32 >= 0x20);
    }
    lemma_no_line_break_concat(seq!['"'], json_escape(s));
    lemma_no_line_break_concat(seq!['"'] + json_escape(s), seq!['"']);
}

proof fn lemma_decimal_no_line_break(n: nat)
    ensures
        has_no_line_break(decimal(n)),
{
    lemma_decimal_digits(n);
    assert forall|i: int| 0 <= i < decimal(n).len() implies decimal(n)[i] != '\n' by {
        assert(0x30 <= decimal(n)[i] as u32);
    }
}

/// Law of the JSON output: the line written for a group is one line. It ends
/// in its only line feed; message and timestamp, whatever they hold, appear
/// in it escaped.
pub proof fn lemma_json_line_is_one_line(count: u32, message: Seq<char>, timestamp: Seq<char>)
    ensures
        json_line(count, message, timestamp).len() > 0,
        json_line(count, message, timestamp).last() == '\n',
        has_no_line_break(json_line(count, message, timestamp).drop_last()),
{
    reveal_strlit("{\"count\":");
    reveal_strlit(",\"message\":");
    reveal_strlit(",\"timestamp\":");
    reveal_strlit("}\n");
    let a = seq!['{', '"', 'c', 'o', 'u', 'n', 't', '"', ':'];
    let b = seq![',', '"', 'm', 'e', 's', 's', 'a', 'g', 'e', '"', ':'];
    let c = seq![',', '"', 't', 'i', 'm', 'e', 's', 't', 'a', 'm', 'p', '"', ':'];
    let d = seq!['}'];
    assert("{\"count\":"@ =~= a);
    assert(",\"message\":"@ =~= b);
    assert(",\"timestamp\":"@ =~= c);
    assert("}\n"@ =~= d.push('\n'));
    lemma_decimal_no_line_break(count as nat);
    lemma_escaped_no_line_break(message);
    lemma_escaped_no_line_break(timestamp);
    let body = a + decimal(count as nat) + b + json_string_literal(message) + c
        + json_string_literal(timestamp) + d;
    lemma_no_line_break_concat(a, decimal(count as nat));
    lemma_no_line_break_concat(a + decimal(count as nat), b);
    lemma_no_line_break_concat(a + decimal(count as nat) + b, json_string_literal(message));
    lemma_no_line_break_concat(a + decimal(count as nat) + b + json_string_literal(message), c);
    lemma_no_line_break_concat(
        a + decimal(count as nat) + b + json_string_literal(message) + c,
        json_string_literal(timestamp),
    );
    lemma_no_line_break_concat(
        a + decimal(count as nat) + b + json_string_literal(message) + c + json_string_literal(
            timestamp,
        ),
        d,
    );
    assert(json_line(count, message, timestamp) =~= body.push('\n'));
    assert(json_line(count, message, timestamp).drop_last() =~= body);
}

/// Law of the JSON output: the line is the object with members `count` (the
/// decimal count), `message` and `timestamp` (string literals whose contents
/// decode, by the JSON string grammar, to the message and the timestamp).
pub proof fn lemma_json_line_reads_back(count: u32, message: Seq<char>, timestamp: Seq<char>)
    ensures
        json_line(count, message, timestamp) == "{\"count\":"@ + decimal(count as nat)
            + ",\"message\":\""@ + json_escape(message) + "\",\"timestamp\":\""@ + json_escape(
            timestamp,
        ) + "\"}\n"@,
        json_unescape(json_escape(message)) == Some(message),
        json_unescape(json_escape(timestamp)) == Some(timestamp),
        decimal_value(decimal(count as nat)) == count,
        forall|i: int|
            0 <= i < decimal(count as nat).len() ==> 0x30 <= #[trigger] decimal(count as nat)[i] as u32
                <= 0x39,
{
    reveal_strlit(",\"message\":");
    reveal_strlit(",\"message\":\"");
    reveal_strlit(",\"timestamp\":");
    reveal_strlit("\",\"timestamp\":\"");
    reveal_strlit("}\n");
    reveal_strlit("\"}\n");
    lemma_json_escape_decodes(message);
    lemma_json_escape_decodes(timestamp);
    lemma_decimal_digits(count as nat);
    lemma_decimal_reads_back(count as nat);
    assert(json_line(count, message, timestamp) =~= "{\"count\":"@ + decimal(count as nat)
        + ",\"message\":\""@ + json_escape(message) + "\",\"timestamp\":\""@ + json_escape(
        timestamp,
    ) + "\"}\n"@);
}

/// Law of the alert payload: the body posted is one line, the object whose
/// only member `content` is a string literal whose contents decode, by the
/// JSON string grammar, to exactly the alert text.
pub proof fn lemma_alert_body_reads_back(count: u32, message: Seq<char>)
    ensures
        alert_body(count, message) == "{\"content\":\""@ + json_escape(alert_content(count, message))
            + "\"}"@,
        json_unescape(json_escape(alert_content(count, message))) == Some(
            alert_content(count, message),
        ),
        has_no_line_break(alert_body(count, message)),
{
    reveal_strlit("{\"content\":");
    reveal_strlit("{\"content\":\"");
    reveal_strlit("}");
    reveal_strlit("\"}");
    let text = alert_content(count, message);
    lemma_json_escape_decodes(text);
    lemma_escaped_no_line_break(text);
    let a = seq!['{', '"', 'c', 'o', 'n', 't', 'e', 'n', 't', '"', ':'];
    assert("{\"content\":"@ =~= a);
    assert("}"@ =~= seq!['}']);
    lemma_no_line_break_concat(a, json_string_literal(text));
    lemma_no_line_break_concat(a + json_string_literal(text), seq!['}']);
    assert(alert_body(count, message) =~= a + json_string_literal(text) + seq!['}']);
    assert(alert_body(count, message) =~= "{\"content\":\""@ + json_escape(text) + "\"}"@);
}

/// Law of the text output: a group repeated `count` times, twice or more, is
/// written `[x` + digits + `] ` + message, where the digits read back to
/// `count`; the `[+] ` form is written only for a group that came once (or
/// a count of zero).
pub proof fn lemma_text_line_shows_count(count: u32, message: Seq<char>)
    ensures
        count >= 2 ==> exists|digits: Seq<char>|
            #![trigger decimal_value(digits)]
            decimal_value(digits) == count && text_line(count, message) == "[x"@ + digits + "] "@
                + message + "\n"@,
        count <= 1 ==> text_line(count, message) == "[+] "@ + message + "\n"@,
{
    lemma_decimal_reads_back(count as nat);
    assert(decimal_value(decimal(count as nat)) == count);
}

/// Law of the alert text: it says the message repeated `count` times, the
/// digits in it reading back to `count`, and quotes the message whole.
pub proof fn lemma_alert_content_shows_count(count: u32, message: Seq<char>)
    ensures
        exists|digits: Seq<char>|
            #![trigger decimal_value(digits)]
            decimal_value(digits) == count && alert_content(count, message)
                == "**ALERTE CRITIQUE**\nMessage repete **"@ + digits + " fois**\n`"@ + message
                + "`"@,
{
    lemma_decimal_reads_back(count as nat);
    assert(decimal_value(decimal(count as nat)) == count);
}

} // verus!
