//! Regular expressions, compiled and applied by the `regex` crate.
use vstd::prelude::*;

verus! {

#[verifier::external_type_specification]
#[verifier::external_body]
pub struct ExRegex(regex::Regex);

#[verifier::external_type_specification]
#[verifier::external_body]
pub struct ExRegexError(regex::Error);

/// What `regex::Regex::replace_all` gives when the expression compiled from
/// `pattern` replaces every non-overlapping match in `text` by `replacement`
/// (where `$name` in `replacement` stands for a capture group).
pub uninterp spec fn regex_replace_all(
    pattern: Seq<char>,
    text: Seq<char>,
    replacement: Seq<char>,
) -> Seq<char>;

/// Whether `regex::Regex::new` accepts `pattern`: its syntax is valid and the
/// compiled expression stays within the default size limits. This depends on
/// the text of the pattern alone.
pub uninterp spec fn regex_compiles(pattern: Seq<char>) -> bool;

/// A regular expression together with the text it was compiled from. Its
/// fields are private and `CompiledPattern::new` is its only constructor, so
/// `regex` always holds the expression compiled from `source`.
pub struct CompiledPattern {
    regex: regex::Regex,
    source: String,
}

impl CompiledPattern {
    /// The text of the expression.
    pub closed spec fn source(&self) -> Seq<char> {
        self.source@
    }

    /// Compiles `pattern`; fails where `regex` refuses it.
    pub fn new(pattern: &str) -> (res: Result<CompiledPattern, regex::Error>)
        ensures
            res is Ok <==> regex_compiles(pattern@),
            res matches Ok(p) ==> p.source() == pattern@,
    {
        match compile(pattern) {
            Ok(regex) => Ok(CompiledPattern { regex, source: pattern.to_owned() }),
            Err(e) => Err(e),
        }
    }

    /// Replaces every match of the expression in `text` by `replacement`.
    pub fn replace_all(&self, text: &str, replacement: &str) -> (res: String)
        ensures
            res@ == regex_replace_all(self.source(), text@, replacement@),
    {
        replace_all_matches(self, text, replacement)
    }
}

/// `regex::Regex::new`: compiles `pattern`, or reports why it cannot. Claims
/// only that it succeeds exactly where `regex_compiles` names; nothing is
/// claimed of the compiled value here, as `CompiledPattern::new` keeps the
/// pattern beside it.
#[verifier::external_body]
fn compile(pattern: &str) -> (res: Result<regex::Regex, regex::Error>)
    ensures
        res is Ok <==> regex_compiles(pattern@),
{
    regex::Regex::new(pattern)
}

/// `regex::Regex::replace_all`, its `Cow` result made an owned `String`.
/// Claims that the result is `regex_replace_all` of the text the expression
/// was compiled from, which holds because a `CompiledPattern` is only built by
/// `CompiledPattern::new` from the same text it compiles.
#[verifier::external_body]
fn replace_all_matches(p: &CompiledPattern, text: &str, replacement: &str) -> (res: String)
    ensures
        res@ == regex_replace_all(p.source@, text@, replacement@),
{
    p.regex.replace_all(text, replacement).into_owned()
}

} // verus!
