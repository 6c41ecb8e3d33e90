//! From a raw log line to the message that is deduplicated: the message is
//! extracted (from a JSON record or after a `[...]` prefix), IP addresses are
//! masked; exclusion and inclusion patterns are applied to the line as read.
use vstd::prelude::*;

use crate::json::{json_member, member_of};
use crate::pattern::{regex_compiles, regex_replace_all, CompiledPattern};
use crate::text::{
    chars_of, contains, contains_seq, copy_range, find_char, first_index, is_first_index,
    lowercase, push_all, string_of, to_lowercase, to_uppercase, trim, trim_chars, uppercase,
};

verus! {

// ---------------------------------------------------------------------------
// Extraction
// ---------------------------------------------------------------------------

/// The message made of what a JSON record holds under `message`, `msg` and
/// `level` (each `None` where absent, `Some(None)` where not a string): the
/// member `message`, or where that is absent the member `msg`, when it is a
/// string; prefixed by `[LEVEL] ` (the level in upper case) where `level` is a
/// string. `None` where the record gives no message.
pub open spec fn message_from_member_values(
    message: Option<Option<Seq<char>>>,
    msg: Option<Option<Seq<char>>>,
    level: Option<Option<Seq<char>>>,
) -> Option<Seq<char>> {
    let chosen = match message {
        Some(m) => m,
        None => match msg {
            Some(m) => m,
            None => None,
        },
    };
    match chosen {
        Some(m) => Some(
            match level {
                Some(Some(l)) => "["@ + uppercase(l) + "] "@ + m,
                _ => m,
            },
        ),
        None => None,
    }
}

/// The message of a JSON record `t`, where it gives one.
pub open spec fn json_message(t: Seq<char>) -> Option<Seq<char>> {
    message_from_member_values(
        json_member(t, "message"@),
        json_member(t, "msg"@),
        json_member(t, "level"@),
    )
}

/// What follows the first `]` of `t`, trimmed; all of `t` where it has none.
pub open spec fn after_bracket(t: Seq<char>) -> Seq<char> {
    match first_index(t, ']') {
        Some(i) => trim(t.skip(i + 1)),
        None => t,
    }
}

/// The message of a log line. The line is trimmed; a line that starts with
/// `{` and is a JSON record with a message gives that message, prefixed by
/// `[LEVEL] ` (the level in upper case) where the record has a level; any
/// other line gives what follows its first `]`, trimmed, or the whole
/// trimmed line where it has no `]`.
pub open spec fn message_of(line: Seq<char>) -> Seq<char> {
    let t = trim(line);
    if t.len() > 0 && t[0] == '{' && json_message(t) is Some {
        json_message(t)->0
    } else {
        after_bracket(t)
    }
}

/// The message made of the members `message`, `msg` and `level` of a JSON
/// record, as `serde_json` finds them (see `message_from_member_values`).
pub fn message_from_members(
    message: Option<Option<String>>,
    msg: Option<Option<String>>,
    level: Option<Option<String>>,
) -> (res: Option<String>)
    ensures
        res.deep_view() == message_from_member_values(
            message.deep_view(),
            msg.deep_view(),
            level.deep_view(),
        ),
{
    let chosen = match message {
        Some(m) => m,
        None => match msg {
            Some(m) => m,
            None => None,
        },
    };
    match chosen {
        Some(m) => match level {
            Some(Some(l)) => {
                let upper = to_uppercase(&l);
                let mut out = chars_of("[");
                push_all(&mut out, &chars_of(&upper));
                push_all(&mut out, &chars_of("] "));
                push_all(&mut out, &chars_of(&m));
                Some(string_of(&out))
            },
            _ => Some(m),
        },
        None => None,
    }
}

/// Extracts the message of a log line (see `message_of`).
pub fn extract_message(line: &str) -> (res: String)
    ensures
        res@ == message_of(line@),
{
    let chars = chars_of(line);
    let t = trim_chars(&chars);
    if t.len() > 0 && t[0] == '{' {
        let record = string_of(&t);
        let message = member_of(&record, "message");
        let msg = member_of(&record, "msg");
        let level = member_of(&record, "level");
        if let Some(m) = message_from_members(message, msg, level) {
            return m;
        }
    }
    match find_char(&t, ']') {
        Some(i) => {
            let rest = copy_range(&t, i + 1, t.len());
            assert(rest@ == t@.skip(i + 1));
            string_of(&trim_chars(&rest))
        },
        None => string_of(&t),
    }
}

/// Law of JSON records: the level prefix does not depend on which member
/// gave the text. A record whose text stands under `msg` (no `message`) and
/// one whose text stands under `message` give the same message, `[LEVEL] `
/// and the text where the level is a string, the text alone otherwise.
pub proof fn lemma_level_prefix_either_member(
    text: Seq<char>,
    other_msg: Option<Option<Seq<char>>>,
    level: Option<Option<Seq<char>>>,
)
    ensures
        message_from_member_values(None, Some(Some(text)), level) == message_from_member_values(
            Some(Some(text)),
            other_msg,
            level,
        ),
        message_from_member_values(None, Some(Some(text)), level) == Some(
            match level {
                Some(Some(l)) => "["@ + uppercase(l) + "] "@ + text,
                _ => text,
            },
        ),
{
}

/// Law of extraction from JSON: a line whose trimmed text is a JSON record
/// with no member `message`, a string `msg` = `m` and a string `level` = `l`
/// gives `[` + `l` in upper case + `] ` + `m`.
pub proof fn lemma_json_msg_with_level(line: Seq<char>, m: Seq<char>, l: Seq<char>)
    requires
        trim(line).len() > 0,
        trim(line)[0] == '{',
        json_member(trim(line), "message"@) is None,
        json_member(trim(line), "msg"@) == Some(Some(m)),
        json_member(trim(line), "level"@) == Some(Some(l)),
    ensures
        message_of(line) == "["@ + uppercase(l) + "] "@ + m,
{
}

/// Law of extraction from JSON: a line whose trimmed text is a JSON record
/// with a string member `message` = `m` gives `m`, behind `[` + the level in
/// upper case + `] ` where the record has a string `level`, whatever `msg`
/// holds.
pub proof fn lemma_json_message_member(line: Seq<char>, m: Seq<char>)
    requires
        trim(line).len() > 0,
        trim(line)[0] == '{',
        json_member(trim(line), "message"@) == Some(Some(m)),
    ensures
        message_of(line) == match json_member(trim(line), "level"@) {
            Some(Some(l)) => "["@ + uppercase(l) + "] "@ + m,
            _ => m,
        },
{
}

/// Law of extraction after a prefix: a line whose trimmed text `p ] r` is
/// not a JSON record with a message, where `p` holds no `]`, gives `r`
/// trimmed. The cut is at the first `]`, so any later `]` stays in the
/// message.
pub proof fn lemma_cut_at_first_bracket(line: Seq<char>, p: Seq<char>, r: Seq<char>)
    requires
        trim(line) == p + seq![']'] + r,
        forall|i: int| 0 <= i < p.len() ==> p[i] != ']',
        !(trim(line)[0] == '{' && json_message(trim(line)) is Some),
    ensures
        message_of(line) == trim(r),
{
    let t = trim(line);
    let k = p.len() as int;
    assert(t[k] == ']');
    assert forall|i: int| 0 <= i < k implies t[i] != ']' by {
        assert(t[i] == p[i]);
    }
    assert(is_first_index(t, ']', k));
    let j = choose|j: int| is_first_index(t, ']', j);
    assert(j == k) by {
        if j < k {
            assert(t[j] == p[j]);
        }
    }
    assert(t.skip(k + 1) =~= r);
}

// ---------------------------------------------------------------------------
// IP masking
// ---------------------------------------------------------------------------

/// Dotted quads of one to three digits each.
pub const IPV4_PATTERN: &'static str = r"\d{1,3}\.\d{1,3}\.\d{1,3}\.\d{1,3}";

/// The full and the `::`-abbreviated forms of IPv6 addresses, in any case.
pub const IPV6_PATTERN: &'static str = r"(?i)[0-9a-f]{1,4}(:[0-9a-f]{1,4}){7}|([0-9a-f]{1,4}:)+:([0-9a-f]{1,4}:)*[0-9a-f]{1,4}|([0-9a-f]{1,4}:)+:|::[0-9a-f]{1,4}(:[0-9a-f]{1,4})*|::";

/// What an IPv4 address is replaced by.
pub const IPV4_MASK: &'static str = "[MASKED_IPv4]";

/// What an IPv6 address is replaced by.
pub const IPV6_MASK: &'static str = "[MASKED_IPv6]";

/// `text` with its IPv4 addresses masked, then its IPv6 addresses.
pub open spec fn masked(text: Seq<char>) -> Seq<char> {
    regex_replace_all(
        IPV6_PATTERN@,
        regex_replace_all(IPV4_PATTERN@, text, IPV4_MASK@),
        IPV6_MASK@,
    )
}

/// Which of the two address patterns could not be compiled.
#[derive(Debug)]
pub enum MaskerError {
    Ipv4Pattern,
    Ipv6Pattern,
}

/// The two compiled address patterns.
pub struct IpMasker {
    ipv4: CompiledPattern,
    ipv6: CompiledPattern,
}

impl IpMasker {
    #[verifier::type_invariant]
    closed spec fn compiled_from_patterns(&self) -> bool {
        &&& self.ipv4.source() == IPV4_PATTERN@
        &&& self.ipv6.source() == IPV6_PATTERN@
    }

    /// The texts the two expressions were compiled from.
    pub closed spec fn sources(&self) -> (Seq<char>, Seq<char>) {
        (self.ipv4.source(), self.ipv6.source())
    }

    /// Compiles `IPV4_PATTERN` and `IPV6_PATTERN`; the error says which one
    /// `regex` refused.
    pub fn new() -> (res: Result<IpMasker, MaskerError>)
        ensures
            res is Ok <==> regex_compiles(IPV4_PATTERN@) && regex_compiles(IPV6_PATTERN@),
            res matches Ok(m) ==> m.sources() == (IPV4_PATTERN@, IPV6_PATTERN@),
            res matches Err(e) ==> match e {
                MaskerError::Ipv4Pattern => !regex_compiles(IPV4_PATTERN@),
                MaskerError::Ipv6Pattern => regex_compiles(IPV4_PATTERN@) && !regex_compiles(
                    IPV6_PATTERN@,
                ),
            },
    {
        let ipv4 = match CompiledPattern::new(IPV4_PATTERN) {
            Ok(p) => p,
            Err(_) => {
                return Err(MaskerError::Ipv4Pattern);
            },
        };
        let ipv6 = match CompiledPattern::new(IPV6_PATTERN) {
            Ok(p) => p,
            Err(_) => {
                return Err(MaskerError::Ipv6Pattern);
            },
        };
        Ok(IpMasker { ipv4, ipv6 })
    }

    /// `text` with IPv4 addresses replaced by `[MASKED_IPv4]`, then IPv6
    /// addresses by `[MASKED_IPv6]`.
    pub fn mask(&self, text: &str) -> (res: String)
        ensures
            res@ == masked(text@),
    {
        proof {
            use_type_invariant(self);
        }
        let v4 = self.ipv4.replace_all(text, IPV4_MASK);
        self.ipv6.replace_all(&v4, IPV6_MASK)
    }
}

// ---------------------------------------------------------------------------
// Exclusion
// ---------------------------------------------------------------------------

/// Some pattern, compared without regard to case, occurs in `text`.
pub open spec fn any_pattern_in(patterns: Seq<Seq<char>>, text: Seq<char>) -> bool {
    exists|k: int|
        0 <= k < patterns.len() && contains_seq(lowercase(text), #[trigger] lowercase(patterns[k]))
}

/// A line is dropped where an exclusion pattern occurs in it, or where
/// inclusion patterns are set and none occurs in it (both without regard
/// to case). The line is taken as read, before its message is extracted.
pub open spec fn filtered_out(
    exclusion: Seq<Seq<char>>,
    inclusion: Seq<Seq<char>>,
    line: Seq<char>,
) -> bool {
    any_pattern_in(exclusion, line) || (inclusion.len() > 0 && !any_pattern_in(inclusion, line))
}

/// A list of patterns, kept in lower case for matching.
pub struct PatternSet {
    lower: Vec<Vec<char>>,
    patterns: Ghost<Seq<Seq<char>>>,
}

impl PatternSet {
    #[verifier::type_invariant]
    closed spec fn lowered(&self) -> bool {
        &&& self.lower.len() == self.patterns@.len()
        &&& forall|k: int|
            0 <= k < self.patterns@.len() ==> #[trigger] self.lower[k]@ == lowercase(
                self.patterns@[k],
            )
    }

    /// The patterns, as given.
    pub closed spec fn patterns(&self) -> Seq<Seq<char>> {
        self.patterns@
    }

    /// The set of `patterns`.
    pub fn new(patterns: &Vec<String>) -> (res: PatternSet)
        ensures
            res.patterns() == patterns@.map_values(|p: String| p@),
    {
        let mut lower: Vec<Vec<char>> = Vec::new();
        let ghost given = patterns@.map_values(|p: String| p@);
        for k in 0..patterns.len()
            invariant
                given == patterns@.map_values(|p: String| p@),
                lower.len() == k,
                forall|j: int| 0 <= j < k ==> #[trigger] lower[j]@ == lowercase(given[j]),
        {
            let l = to_lowercase(patterns[k].as_str());
            lower.push(chars_of(&l));
        }
        PatternSet { lower, patterns: Ghost(given) }
    }

    /// There are no patterns.
    pub fn is_empty(&self) -> (res: bool)
        ensures
            res == (self.patterns().len() == 0),
    {
        proof {
            use_type_invariant(self);
        }
        self.lower.len() == 0
    }

    /// Whether one of the patterns occurs in `text`, without regard to case.
    pub fn matches(&self, text: &str) -> (res: bool)
        ensures
            res == any_pattern_in(self.patterns(), text@),
    {
        proof {
            use_type_invariant(self);
        }
        let lower = chars_of(&to_lowercase(text));
        for k in 0..self.lower.len()
            invariant
                lower@ == lowercase(text@),
                self.lower.len() == self.patterns@.len(),
                forall|j: int|
                    0 <= j < self.patterns@.len() ==> #[trigger] self.lower[j]@ == lowercase(
                        self.patterns@[j],
                    ),
                forall|j: int|
                    0 <= j < k ==> !contains_seq(
                        lowercase(text@),
                        #[trigger] lowercase(self.patterns@[j]),
                    ),
        {
            assert(self.lower[k as int]@ == lowercase(self.patterns@[k as int]));
            if contains(&lower, &self.lower[k]) {
                assert(contains_seq(lowercase(text@), lowercase(self.patterns@[k as int])));
                return true;
            }
        }
        false
    }
}

} // verus!
