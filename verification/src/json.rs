//! Reading members of a JSON document and quoting strings as JSON, by `serde_json`.
use vstd::prelude::*;

verus! {

#[verifier::external_type_specification]
#[verifier::external_body]
pub struct ExJsonError(serde_json::Error);

/// What `serde_json` finds under `key` in the document `text`: `None` where
/// `text` is not a JSON document or its value has no member `key` (a value
/// that is not an object has none); `Some(Some(s))` where the member is the
/// string `s`; `Some(None)` where it is present but not a string.
pub uninterp spec fn json_member(text: Seq<char>, key: Seq<char>) -> Option<Option<Seq<char>>>;

/// The lower-case hexadecimal digit of `d` (below 16).
pub open spec fn hex_digit(d: int) -> char {
    if d < 10 {
        (('0' as int) + d) as char
    } else {
        (('a' as int) + d - 10) as char
    }
}

/// How `serde_json` writes one character inside a string literal: `"` and
/// `\` behind a backslash; backspace, tab, line feed, form feed and carriage
/// return as `\b`, `\t`, `\n`, `\f`, `\r`; the other control characters
/// (below U+0020) as `\u00` and two lower-case hex digits; any other
/// character as it is.
pub open spec fn json_escape_char(c: char) -> Seq<char> {
    let x = c as u32;
    if x == 0x22 {
        seq!['\\', '"']
    } else if x == 0x5c {
        seq!['\\', '\\']
    } else if x == 0x08 {
        seq!['\\', 'b']
    } else if x == 0x09 {
        seq!['\\', 't']
    } else if x == 0x0a {
        seq!['\\', 'n']
    } else if x == 0x0c {
        seq!['\\', 'f']
    } else if x == 0x0d {
        seq!['\\', 'r']
    } else if x < 0x20 {
        seq!['\\', 'u', '0', '0', hex_digit((x / 16) as int), hex_digit((x % 16) as int)]
    } else {
        seq![c]
    }
}

/// The characters of `s`, each written as `json_escape_char` says.
pub open spec fn json_escape(s: Seq<char>) -> Seq<char>
    decreases s.len(),
{
    if s.len() == 0 {
        Seq::empty()
    } else {
        json_escape_char(s[0]) + json_escape(s.drop_first())
    }
}

/// The JSON string literal that `serde_json` writes for the string `s`: the
/// escaped characters between double quotes.
pub open spec fn json_string_literal(s: Seq<char>) -> Seq<char> {
    seq!['"'] + json_escape(s) + seq!['"']
}

/// The value of a hexadecimal digit, in either case.
pub open spec fn hex_value(c: char) -> Option<int> {
    let x = c as int;
    if 0x30 <= x <= 0x39 {
        Some(x - 0x30)
    } else if 0x61 <= x <= 0x66 {
        Some(x - 0x61 + 10)
    } else if 0x41 <= x <= 0x46 {
        Some(x - 0x41 + 10)
    } else {
        None
    }
}

/// The character that the escape `\uXXXX` at the start of `t` stands for,
/// where `t` starts with one naming a character outside the surrogates.
pub open spec fn unicode_escape(t: Seq<char>) -> Option<char> {
    if t.len() >= 6 && hex_value(t[2]) is Some && hex_value(t[3]) is Some && hex_value(t[4]) is Some
        && hex_value(t[5]) is Some {
        let v = hex_value(t[2])->0 * 4096 + hex_value(t[3])->0 * 256 + hex_value(t[4])->0 * 16
            + hex_value(t[5])->0;
        if 0xd800 <= v <= 0xdfff {
            None
        } else {
            Some(v as char)
        }
    } else {
        None
    }
}

/// The string that the contents `t` of a JSON string literal (what stands
/// between its quotes) stand for, by the string grammar of RFC 8259: a raw
/// `"` or control character is refused, and a backslash starts one of the
/// escapes `\"`, `\\`, `\/`, `\b`, `\f`, `\n`, `\r`, `\t` or `\uXXXX`.
/// `None` where `t` is not such contents (pairs of surrogate escapes are not
/// read here).
pub open spec fn json_unescape(t: Seq<char>) -> Option<Seq<char>>
    decreases t.len(),
{
    if t.len() == 0 {
        Some(Seq::empty())
    } else if t[0] == '"' || (t[0] as int) < 0x20 {
        None
    } else if t[0] != '\\' {
        match json_unescape(t.drop_first()) {
            Some(r) => Some(seq![t[0]] + r),
            None => None,
        }
    } else if t.len() < 2 {
        None
    } else {
        let e = t[1];
        let (c, n): (Option<char>, int) = if e == '"' {
            (Some('"'), 2)
        } else if e == '\\' {
            (Some('\\'), 2)
        } else if e == '/' {
            (Some('/'), 2)
        } else if e == 'b' {
            (Some('\u{8}'), 2)
        } else if e == 'f' {
            (Some('\u{c}'), 2)
        } else if e == 'n' {
            (Some('\n'), 2)
        } else if e == 'r' {
            (Some('\r'), 2)
        } else if e == 't' {
            (Some('\t'), 2)
        } else if e == 'u' {
            (unicode_escape(t), 6)
        } else {
            (None, 2)
        };
        match c {
            Some(ch) => match json_unescape(t.skip(n)) {
                Some(r) => Some(seq![ch] + r),
                None => None,
            },
            None => None,
        }
    }
}

proof fn lemma_hex_digit(d: int)
    requires
        0 <= d < 16,
    ensures
        hex_value(hex_digit(d)) == Some(d),
        hex_digit(d) as u32 >= 0x30,
{
}

/// Escaping one character and then decoding gives that character back,
/// whatever follows.
proof fn lemma_unescape_char(c: char, rest: Seq<char>)
    ensures
        json_unescape(json_escape_char(c) + rest) == match json_unescape(rest) {
            Some(r) => Some(seq![c] + r),
            None => None::<Seq<char>>,
        },
{
    let e = json_escape_char(c);
    let t = e + rest;
    let x = c as u32;
    assert(t.skip(e.len() as int) =~= rest);
    if x == 0x22 || x == 0x5c || x == 0x08 || x == 0x09 || x == 0x0a || x == 0x0c || x == 0x0d {
        assert(t[0] == '\\');
    } else if x < 0x20 {
        lemma_hex_digit((x / 16) as int);
        lemma_hex_digit((x % 16) as int);
        assert(t[0] == '\\' && t[1] == 'u');
        assert(t[2] == '0' && t[3] == '0');
        assert(unicode_escape(t) == Some(c));
    } else {
        assert(t.drop_first() =~= rest);
    }
}

/// Law of JSON quoting: the contents of the literal `serde_json` writes for
/// `s` decode, by the JSON string grammar, to `s` itself.
pub proof fn lemma_json_escape_decodes(s: Seq<char>)
    ensures
        json_unescape(json_escape(s)) == Some(s),
    decreases s.len(),
{
    if s.len() > 0 {
        lemma_json_escape_decodes(s.drop_first());
        lemma_unescape_char(s[0], json_escape(s.drop_first()));
        assert(seq![s[0]] + s.drop_first() =~= s);
    }
}

/// Law of JSON quoting: an escaped string holds no control character (so no
/// line break); such characters appear only as escapes.
pub proof fn lemma_json_escape_printable(s: Seq<char>)
    ensures
        forall|i: int| 0 <= i < json_escape(s).len() ==> #[trigger] json_escape(s)[i] as u32 >= 0x20,
    decreases s.len(),
{
    if s.len() > 0 {
        let c = s[0];
        let x = c as u32;
        lemma_json_escape_printable(s.drop_first());
        if x < 0x20 && x != 0x08 && x != 0x09 && x != 0x0a && x != 0x0c && x != 0x0d {
            lemma_hex_digit((x / 16) as int);
            lemma_hex_digit((x % 16) as int);
        }
        let e = json_escape_char(c);
        let r = json_escape(s.drop_first());
        assert forall|i: int| 0 <= i < (e + r).len() implies #[trigger] (e + r)[i] as u32 >= 0x20 by {
            if i >= e.len() {
                assert((e + r)[i] == r[i - e.len()]);
            } else {
                assert((e + r)[i] == e[i]);
            }
        }
    }
}

/// `serde_json::from_str::<Value>` followed by `Value::get(key)` and
/// `Value::as_str` on what it finds: the three outcomes that `json_member`
/// names, the string copied into a `String`.
#[verifier::external_body]
pub(crate) fn member_of(text: &str, key: &str) -> (res: Option<Option<String>>)
    ensures
        res.deep_view() == json_member(text@, key@),
{
    let value: serde_json::Value = match serde_json::from_str(text) {
        Ok(v) => v,
        Err(_) => return None,
    };
    match value.get(key) {
        Some(member) => Some(member.as_str().map(String::from)),
        None => None,
    }
}

/// `serde_json::to_string` on a string. Its documentation says that
/// serialisation fails only where a `Serialize` impl decides to fail or a map
/// has keys that are not strings; neither happens for a `str`, so the result
/// is claimed to be `Ok`. What it holds is `json_string_literal(s@)`: the
/// escaping of `format_escaped_str` in `serde_json`'s `ser.rs`, written out.
#[verifier::external_body]
fn quote_json(s: &str) -> (res: Result<String, serde_json::Error>)
    ensures
        res is Ok,
        res matches Ok(q) ==> q@ == json_string_literal(s@),
{
    serde_json::to_string(s)
}

/// `s` written as a JSON string literal.
pub fn json_quoted(s: &str) -> (res: String)
    ensures
        res@ == json_string_literal(s@),
{
    match quote_json(s) {
        Ok(q) => q,
        Err(_) => String::new(),
    }
}

} // verus!
