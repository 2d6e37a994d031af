use vstd::prelude::*;
use crate::text::{parse_usize, parse_usize_or_zero};

verus! {

/// The capture groups of every match of the regular expression `pattern` in
/// `text`, as the `regex` crate finds them: the matches left to right, and in
/// each match group 0 (the whole match) followed by the groups in the order of
/// their opening parentheses, `None` for a group that took no part. `None`
/// when `pattern` is not a valid expression.
pub uninterp spec fn regex_captures(pattern: Seq<char>, text: Seq<char>) -> Option<Seq<Seq<Option<Seq<char>>>>>;

/// `regex::Regex::new(pattern)` followed by `captures_iter(text)`, each match
/// turned into the texts of its groups. The contract claims only that the
/// result is the one `regex_captures` names for these two arguments, and
/// that it is `None` exactly when the pattern does not compile.
#[verifier::external_body]
pub(crate) fn captures_all(pattern: &str, text: &str) -> (r: Option<Vec<Vec<Option<String>>>>)
    ensures
        match r {
            Some(v) => regex_captures(pattern@, text@) == Some(v.deep_view()),
            None => regex_captures(pattern@, text@) is None,
        },
{
    match regex::Regex::new(pattern) {
        Ok(re) => Some(
            re.captures_iter(text).map(|c| c.iter().map(|m| m.map(|m| m.as_str().to_string())).collect()).collect(),
        ),
        Err(_) => None,
    }
}

/// Every match has at least `n` groups, and groups `1..n` all took part.
pub open spec fn well_formed(caps: Seq<Seq<Option<Seq<char>>>>, n: int) -> bool {
    forall|k: int|
        0 <= k < caps.len() ==> (#[trigger] caps[k]).len() >= n && forall|g: int|
            1 <= g < n ==> (#[trigger] caps[k][g]) is Some
}

/// The text of group `g` of a match.
pub open spec fn group(c: Seq<Option<Seq<char>>>, g: int) -> Seq<char> {
    c[g]->Some_0
}

/// The number that a text writes, or 0 when it writes none.
pub open spec fn number_or_zero(s: Seq<char>) -> usize {
    match parse_usize(s) {
        Some(n) => n,
        None => 0,
    }
}

/// Whether a match has at least `n` groups and groups `1..n` took part.
fn match_well_formed(c: &Vec<Option<String>>, n: usize) -> (r: bool)
    ensures
        r == (c.deep_view().len() >= n && forall|g: int| 1 <= g < n ==> (#[trigger] c.deep_view()[g]) is Some),
{
    if c.len() < n {
        return false;
    }
    let mut g: usize = 1;
    while g < n
        invariant
            1 <= g,
            c.deep_view().len() >= n,
            forall|h: int| 1 <= h < g && h < n ==> (#[trigger] c.deep_view()[h]) is Some,
        decreases n - g,
    {
        if c[g].is_none() {
            assert(c.deep_view()[g as int] is None);
            return false;
        }
        g = g + 1;
    }
    true
}

/// Whether every match has at least `n` groups and groups `1..n` took part.
pub fn check_well_formed(caps: &Vec<Vec<Option<String>>>, n: usize) -> (r: bool)
    ensures
        r == well_formed(caps.deep_view(), n as int),
{
    let mut k: usize = 0;
    while k < caps.len()
        invariant
            k <= caps@.len(),
            forall|j: int| 0 <= j < k ==> (#[trigger] caps.deep_view()[j]).len() >= n && forall|g: int|
                1 <= g < n ==> (#[trigger] caps.deep_view()[j][g]) is Some,
        decreases caps.len() - k,
    {
        assert(caps.deep_view()[k as int] == caps@[k as int].deep_view());
        if !match_well_formed(&caps[k], n) {
            return false;
        }
        k = k + 1;
    }
    true
}

/// The text of group `g` of a match, copied.
pub fn group_string(c: &Vec<Option<String>>, g: usize) -> (r: String)
    requires
        g < c@.len(),
        c.deep_view()[g as int] is Some,
    ensures
        r@ == group(c.deep_view(), g as int),
{
    match &c[g] {
        Some(s) => s.clone(),
        None => String::new(),
    }
}

/// The number written by group `g` of a match, or 0.
pub fn group_number(c: &Vec<Option<String>>, g: usize) -> (r: usize)
    requires
        g < c@.len(),
        c.deep_view()[g as int] is Some,
    ensures
        r == number_or_zero(group(c.deep_view(), g as int)),
{
    match &c[g] {
        Some(s) => parse_usize_or_zero(s.as_str()),
        None => 0,
    }
}

} // verus!
