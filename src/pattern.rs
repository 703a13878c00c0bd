//! Compiled text-matching expressions, backed by the `regex` crate.

use vstd::prelude::*;

verus! {

#[verifier::external_type_specification]
#[verifier::external_body]
pub struct ExRegex(regex::Regex);

/// Whether `regex::Regex::new` accepts the expression (valid syntax, within
/// the default size limit).
pub uninterp spec fn compiles(expr: Seq<char>) -> bool;

/// The number of capture groups of a compiled expression, the implicit
/// group of the whole match included.
pub uninterp spec fn group_count(expr: Seq<char>) -> nat;

/// The text of the first capture group in the leftmost match of `expr` in
/// `text`, or `None` when there is no match or the group did not take part.
pub uninterp spec fn first_group(expr: Seq<char>, text: Seq<char>) -> Option<Seq<char>>;

/// Whether `expr` matches anywhere in `text`.
pub uninterp spec fn finds_match(expr: Seq<char>, text: Seq<char>) -> bool;

/// The text held by an optional string.
pub open spec fn opt_view(o: Option<String>) -> Option<Seq<char>> {
    match o {
        Some(s) => Some(s@),
        None => None,
    }
}

/// A compiled expression together with its source text.
///
/// The fields are private: the only way to build one is `Pattern::new`,
/// so `re` is always the compilation of `source`.
pub struct Pattern {
    source: String,
    re: regex::Regex,
}

impl View for Pattern {
    type V = Seq<char>;

    closed spec fn view(&self) -> Seq<char> {
        self.source@
    }
}

/// Relies on `regex::Regex::new`: it succeeds exactly on the expressions
/// that compile.
#[verifier::external_body]
fn compile_regex(expr: &str) -> (r: Option<regex::Regex>)
    ensures
        r is Some <==> compiles(expr@),
{
    regex::Regex::new(expr).ok()
}

/// Relies on `regex::Regex::captures_len`: the group count, never zero.
#[verifier::external_body]
fn captures_len_of(p: &Pattern) -> (n: usize)
    ensures
        n as nat == group_count(p@),
        n >= 1,
{
    p.re.captures_len()
}

/// Relies on `regex::Regex::captures` and `Captures::get(1)`: the text of
/// group 1 in the leftmost match; `get` gives `None` for a group that the
/// expression does not have.
#[verifier::external_body]
fn captures_first_of(p: &Pattern, text: &str) -> (r: Option<String>)
    ensures
        opt_view(r) == first_group(p@, text@),
        group_count(p@) < 2 ==> r is None,
{
    p.re.captures(text).and_then(|c| c.get(1)).map(|m| m.as_str().to_string())
}

/// Relies on `regex::Regex::is_match`: whether there is a match anywhere.
#[verifier::external_body]
fn is_match_of(p: &Pattern, text: &str) -> (r: bool)
    ensures
        r == finds_match(p@, text@),
{
    p.re.is_match(text)
}

impl Pattern {
    /// Compiles `source`; `None` when it is not a valid expression.
    pub fn new(source: &str) -> (r: Option<Pattern>)
        ensures
            r is Some <==> compiles(source@),
            r matches Some(p) ==> p@ == source@,
    {
        match compile_regex(source) {
            Some(re) => Some(Pattern { source: source.to_string(), re }),
            None => None,
        }
    }

    /// The source text of the expression.
    pub fn as_str(&self) -> (r: &str)
        ensures
            r@ == self@,
    {
        self.source.as_str()
    }

    /// The number of capture groups, the whole match included.
    pub fn group_count(&self) -> (n: usize)
        ensures
            n as nat == group_count(self@),
            n >= 1,
    {
        captures_len_of(self)
    }

    /// The text of the first capture group of the leftmost match in `text`.
    pub fn first_group(&self, text: &str) -> (r: Option<String>)
        ensures
            opt_view(r) == first_group(self@, text@),
    {
        captures_first_of(self, text)
    }

    /// Whether the expression matches anywhere in `text`.
    pub fn is_match(&self, text: &str) -> (r: bool)
        ensures
            r == finds_match(self@, text@),
    {
        is_match_of(self, text)
    }
}

} // verus!
