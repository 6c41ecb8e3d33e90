//! The agent's settings, command-line overrides of them, and the reading of
//! the webhook address from an environment variable.
use vstd::prelude::*;

use crate::text::{
    chars_of, copy_range, find_char, first_index, is_whitespace, is_ws, lowercase, string_of,
    to_lowercase, trim, trim_chars, trim_start,
};

verus! {

broadcast use vstd::string::group_string_axioms;

/// Webhook alerts on messages repeated often.
pub struct AlertConfig {
    /// Where alerts are posted (a URL, or `$VAR` / `${VAR}` naming one).
    pub webhook_url: String,
    /// An alert goes out for a group repeated at least this many times.
    pub threshold: u32,
    /// At most one alert per this many minutes for the same message.
    pub cooldown_minutes: Option<u64>,
}

/// The agent's settings.
pub struct Config {
    /// Replace IP addresses in messages by a mask.
    pub mask_ips: bool,
    /// A group is kept when its message repeats at least this many times.
    pub threshold: u32,
    /// Where kept groups are written; none or empty means standard output.
    pub output_file: Option<String>,
    /// Webhook alerts, where configured.
    pub alert: Option<AlertConfig>,
    /// Lines holding one of these (without regard to case) are dropped.
    pub exclude_patterns: Vec<String>,
    /// Where set, only lines holding one of these (without regard to case)
    /// are kept.
    pub include_patterns: Vec<String>,
}

impl Config {
    /// Applies the command-line overrides: a threshold given there replaces
    /// the configured one, and `no_mask_ips` turns masking off.
    pub fn apply_overrides(&mut self, threshold: Option<u32>, no_mask_ips: bool)
        ensures
            final(self).threshold == match threshold {
                Some(t) => t,
                None => old(self).threshold,
            },
            final(self).mask_ips == (old(self).mask_ips && !no_mask_ips),
            final(self).output_file == old(self).output_file,
            final(self).alert == old(self).alert,
            final(self).exclude_patterns == old(self).exclude_patterns,
            final(self).include_patterns == old(self).include_patterns,
    {
        if let Some(t) = threshold {
            self.threshold = t;
        }
        if no_mask_ips {
            self.mask_ips = false;
        }
    }

    /// Kept groups go to standard output: no output file, or an empty name.
    pub fn is_stdout_mode(&self) -> (res: bool)
        ensures
            res == match self.output_file {
                Some(f) => f@.len() == 0,
                None => true,
            },
    {
        match &self.output_file {
            Some(f) => f.as_str().is_empty(),
            None => true,
        }
    }
}

/// How much the agent reports on standard error.
#[derive(PartialEq, Eq, Structural, Clone, Copy)]
pub enum Verbosity {
    Quiet,
    Normal,
    Verbose,
}

/// `--verbose` and `--quiet` were both given.
pub struct ConflictingFlags;

/// The verbosity the two flags ask for; asking for both is refused.
pub fn verbosity_from_flags(verbose: bool, quiet: bool) -> (res: Result<Verbosity, ConflictingFlags>)
    ensures
        res is Err <==> (verbose && quiet),
        res matches Ok(v) ==> v == if quiet {
            Verbosity::Quiet
        } else if verbose {
            Verbosity::Verbose
        } else {
            Verbosity::Normal
        },
{
    if verbose && quiet {
        Err(ConflictingFlags)
    } else if quiet {
        Ok(Verbosity::Quiet)
    } else if verbose {
        Ok(Verbosity::Verbose)
    } else {
        Ok(Verbosity::Normal)
    }
}

/// The output format names JSON lines: `json` or `j`, in any case.
pub fn is_json_format(format: &str) -> (res: bool)
    ensures
        res == (lowercase(format@) == "json"@ || lowercase(format@) == "j"@),
{
    let lower = to_lowercase(format);
    lower == "json".to_owned() || lower == "j".to_owned()
}

// ---------------------------------------------------------------------------
// Environment variables
// ---------------------------------------------------------------------------

/// `s` up to its first whitespace character.
pub open spec fn up_to_whitespace(s: Seq<char>) -> Seq<char>
    decreases s.len(),
{
    if s.len() == 0 || is_ws(s[0]) {
        Seq::empty()
    } else {
        seq![s[0]] + up_to_whitespace(s.drop_first())
    }
}

/// The first whitespace-separated word of `s`, where it has one.
pub open spec fn first_word(s: Seq<char>) -> Option<Seq<char>> {
    let t = trim_start(s);
    if t.len() == 0 {
        None
    } else {
        Some(up_to_whitespace(t))
    }
}

/// The environment variable that a setting names: `${NAME}` (what stands
/// between `${` and the first `}`), or else `$NAME` (the first word after the
/// `$`, or all of the rest where there is no word), the setting being trimmed
/// first. A setting that names none gives `None`.
pub open spec fn env_var_name_of(value: Seq<char>) -> Option<Seq<char>> {
    let s = trim(value);
    if s.len() >= 2 && s[0] == '$' && s[1] == '{' && first_index(s, '}') is Some {
        Some(s.subrange(2, first_index(s, '}')->0))
    } else if s.len() >= 1 && s[0] == '$' {
        match first_word(s.skip(1)) {
            Some(w) => Some(w),
            None => Some(s.skip(1)),
        }
    } else {
        None
    }
}

/// The first whitespace-separated word of `v`.
fn first_word_of(v: &Vec<char>) -> (res: Option<Vec<char>>)
    ensures
        match res {
            Some(w) => first_word(v@) == Some(w@),
            None => first_word(v@) is None,
        },
{
    let n = v.len();
    let mut i: usize = 0;
    assert(v@.subrange(0, n as int) == v@);
    while i < n && is_whitespace(v[i])
        invariant
            i <= n,
            n == v.len(),
            trim_start(v@) == trim_start(v@.subrange(i as int, n as int)),
        decreases n - i,
    {
        assert(v@.subrange(i + 1, n as int) == v@.subrange(i as int, n as int).drop_first());
        i += 1;
    }
    assert(trim_start(v@) == v@.subrange(i as int, n as int));
    if i == n {
        return None;
    }
    let mut j: usize = i;
    while j < n && !is_whitespace(v[j])
        invariant
            i <= j <= n,
            n == v.len(),
            up_to_whitespace(v@.subrange(i as int, n as int)) == v@.subrange(i as int, j as int)
                + up_to_whitespace(v@.subrange(j as int, n as int)),
        decreases n - j,
    {
        assert(v@.subrange(j + 1, n as int) == v@.subrange(j as int, n as int).drop_first());
        assert(v@.subrange(i as int, j + 1) == v@.subrange(i as int, j as int) + seq![v@[j as int]]);
        j += 1;
    }
    assert(v@.subrange(i as int, n as int).len() > 0);
    assert(up_to_whitespace(v@.subrange(j as int, n as int)) == Seq::<char>::empty());
    assert(v@.subrange(i as int, j as int) + Seq::<char>::empty() == v@.subrange(i as int, j as int));
    Some(copy_range(v, i, j))
}

/// The environment variable that a setting names (see `env_var_name_of`).
pub fn env_var_name(value: &str) -> (res: Option<String>)
    ensures
        res.deep_view() == env_var_name_of(value@),
{
    let s = trim_chars(&chars_of(value));
    if s.len() >= 2 && s[0] == '$' && s[1] == '{' {
        if let Some(end) = find_char(&s, '}') {
            return Some(string_of(&copy_range(&s, 2, end)));
        }
    }
    if s.len() >= 1 && s[0] == '$' {
        let rest = copy_range(&s, 1, s.len());
        assert(rest@ == s@.skip(1));
        match first_word_of(&rest) {
            Some(w) => Some(string_of(&w)),
            None => Some(string_of(&rest)),
        }
    } else {
        None
    }
}

/// The variable name shown when the variable a webhook setting names is not
/// set: what stands between `${` and the first `}` (or the end), or else
/// what follows the `$`. The setting is taken as written, not trimmed.
pub open spec fn missing_var_hint(url: Seq<char>) -> Seq<char> {
    if url.len() >= 2 && url[0] == '$' && url[1] == '{' {
        match first_index(url, '}') {
            Some(i) => url.subrange(2, i),
            None => url.skip(2),
        }
    } else {
        url.skip(1)
    }
}

/// What becomes of the webhook setting.
pub enum WebhookUrl {
    /// The variable it names is set: this is its value.
    Resolved(String),
    /// It names no variable and is used as written.
    AsWritten,
    /// It starts with `$` but no set variable resolves it; the name shown.
    MissingVariable(String),
}

/// Resolves the webhook setting `url`, given `lookup`: the value of the
/// variable `env_var_name(url)` names, where it names one that is set.
pub fn resolve_webhook(url: &str, lookup: Option<String>) -> (res: WebhookUrl)
    ensures
        match lookup {
            Some(v) => res == WebhookUrl::Resolved(v),
            None => if url@.len() > 0 && url@[0] == '$' {
                res matches WebhookUrl::MissingVariable(h) && h@ == missing_var_hint(url@)
            } else {
                res is AsWritten
            },
        },
{
    match lookup {
        Some(v) => WebhookUrl::Resolved(v),
        None => {
            let u = chars_of(url);
            if u.len() > 0 && u[0] == '$' {
                if u.len() >= 2 && u[1] == '{' {
                    match find_char(&u, '}') {
                        Some(i) => WebhookUrl::MissingVariable(string_of(&copy_range(&u, 2, i))),
                        None => {
                            let rest = copy_range(&u, 2, u.len());
                            assert(rest@ == u@.skip(2));
                            WebhookUrl::MissingVariable(string_of(&rest))
                        },
                    }
                } else {
                    let rest = copy_range(&u, 1, u.len());
                    assert(rest@ == u@.skip(1));
                    WebhookUrl::MissingVariable(string_of(&rest))
                }
            } else {
                WebhookUrl::AsWritten
            }
        },
    }
}

} // verus!
