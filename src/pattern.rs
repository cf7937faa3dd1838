use vstd::prelude::*;

use crate::parser::opt_view;

verus! {

/// Whether `pattern` is a regular expression that `regex` accepts.
pub uninterp spec fn pattern_valid(pattern: Seq<char>) -> bool;

/// Whether `pattern` matches somewhere in `text`.
pub uninterp spec fn pattern_matches(pattern: Seq<char>, text: Seq<char>) -> bool;

/// The text of the group named `group` in the leftmost-first match of `pattern` in `text`,
/// if that group took part in it.
pub uninterp spec fn group_text(pattern: Seq<char>, text: Seq<char>, group: Seq<char>) -> Option<
    Seq<char>,
>;

/// Relies on `regex::Regex::new`, which fails exactly on a pattern it does not accept (the
/// result is then `None`); on
/// `Regex::captures`, which gives the leftmost-first match if the pattern matches anywhere
/// in the text; and on `Captures::name`, which gives the text of a named group of that match,
/// or nothing where the group did not take part or is not in the pattern.
#[verifier::external_body]
pub(crate) fn capture_groups(pattern: &str, text: &str, groups: &Vec<String>) -> (r: Option<
    Option<Vec<Option<String>>>,
>)
    ensures
        r is None <==> !pattern_valid(pattern@),
        r matches Some(found) ==> (found is Some <==> pattern_matches(pattern@, text@)),
        r matches Some(Some(caps)) ==> caps@.len() == groups@.len(),
        r matches Some(Some(caps)) ==> forall|i: int|
            0 <= i < caps@.len() ==> #[trigger] opt_view(caps@[i]) == group_text(
                pattern@,
                text@,
                groups@[i]@,
            ),
{
    let re = regex::Regex::new(pattern).ok()?;
    Some(
        re.captures(text).map(
            |c| groups.iter().map(|g| c.name(g).map(|m| m.as_str().to_string())).collect(),
        ),
    )
}

} // verus!
