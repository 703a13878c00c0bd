//! Pulling one candidate token out of a line and filtering it.

use vstd::prelude::*;
use vstd::utf8::encode_utf8;
use crate::pattern::{finds_match, first_group, opt_view, Pattern};
use crate::rules::{CompiledRules, RulesModel};

verus! {

/// Length of a text in bytes of its UTF-8 encoding.
pub open spec fn byte_len(s: Seq<char>) -> nat {
    encode_utf8(s).len()
}

/// Whether some unwanted expression matches the candidate.
pub open spec fn unwanted_hit(unwanted: Seq<Seq<char>>, c: Seq<char>) -> bool {
    exists|i: int| 0 <= i < unwanted.len() && finds_match(#[trigger] unwanted[i], c)
}

/// The token that a rule set accepts from a line, if any.
pub open spec fn accepted(m: RulesModel, line: Seq<char>) -> Option<Seq<char>> {
    match first_group(m.pattern, line) {
        None => None,
        Some(c) => if unwanted_hit(m.unwanted, c) || byte_len(c) < m.min_length {
            None
        } else {
            Some(c)
        },
    }
}

/// What became of one line, with the first reason for a rejection.
#[derive(Clone, Debug, PartialEq, Eq)]
pub enum Outcome {
    /// The extraction expression found no token.
    NoMatch,
    /// An unwanted expression matched the candidate.
    Unwanted(String),
    /// The candidate is shorter than the minimum length.
    TooShort(String),
    /// The candidate is accepted.
    Accepted(String),
}

/// Extracts the candidate of `line` and checks it: first against the
/// unwanted expressions, in order, then against the minimum length.
pub fn classify(line: &str, rules: &CompiledRules) -> (r: Outcome)
    requires
        rules.wf(),
    ensures
        match first_group(rules@.pattern, line@) {
            None => r is NoMatch,
            Some(c) => if unwanted_hit(rules@.unwanted, c) {
                r matches Outcome::Unwanted(t) && t@ == c
            } else if byte_len(c) < rules@.min_length {
                r matches Outcome::TooShort(t) && t@ == c
            } else {
                r matches Outcome::Accepted(t) && t@ == c
            },
        },
{
    let candidate = match rules.pattern().first_group(line) {
        Some(c) => c,
        None => {
            return Outcome::NoMatch;
        },
    };
    let ghost c = candidate@;
    let unwanted: &Vec<Pattern> = rules.unwanted();
    let ghost u = rules@.unwanted;
    let mut i: usize = 0;
    while i < unwanted.len()
        invariant
            i <= unwanted.len(),
            u == unwanted@.map_values(|p: Pattern| p@),
            candidate@ == c,
            u == rules@.unwanted,
            first_group(rules@.pattern, line@) == Some(c),
            forall|j: int| 0 <= j < i ==> !finds_match(#[trigger] u[j], c),
        decreases unwanted.len() - i,
    {
        assert(u[i as int] == unwanted@[i as int]@);
        if unwanted[i].is_match(candidate.as_str()) {
            assert(finds_match(u[i as int], c));
            return Outcome::Unwanted(candidate);
        }
        i = i + 1;
    }
    assert(!unwanted_hit(u, c));
    let n: usize = candidate.as_str().as_bytes().len();
    if n < rules.min_length() {
        return Outcome::TooShort(candidate);
    }
    Outcome::Accepted(candidate)
}

/// The accepted token of `line`, if any.
pub fn extract(line: &str, rules: &CompiledRules) -> (r: Option<String>)
    requires
        rules.wf(),
    ensures
        opt_view(r) == accepted(rules@, line@),
{
    match classify(line, rules) {
        Outcome::Accepted(t) => Some(t),
        _ => None,
    }
}

} // verus!
