//! Searching a text with a regular expression.

use vstd::prelude::*;

verus! {

/// What a regular expression finds in a text: for every match, from left
/// to right, the part of the text that each group of the expression took,
/// the whole match being group zero. A group that took no part in a match
/// has none. `None` where the pattern is no regular expression.
pub uninterp spec fn regex_captures(pattern: Seq<char>, text: Seq<char>) -> Option<
    Seq<Seq<Option<Seq<char>>>>,
>;

/// What was found, as plain values.
pub open spec fn groups_of(found: Option<Vec<Vec<Option<String>>>>) -> Option<
    Seq<Seq<Option<Seq<char>>>>,
> {
    match found {
        Some(matches) => Some(
            Seq::new(
                matches@.len(),
                |i: int|
                    Seq::new(
                        matches@[i]@.len(),
                        |k: int|
                            match matches@[i]@[k] {
                                Some(part) => Some(part@),
                                None => None,
                            },
                    ),
            ),
        ),
        None => None,
    }
}

/// Searches a text with a regular expression.
///
/// This compiles the pattern with `regex::Regex::new` and walks the text
/// with `Regex::captures_iter`, which yields the matches that do not
/// overlap, in the order in which they stand in the text; of each match
/// every group is copied out with `Captures::iter` and `Match::as_str`. A
/// pattern that does not compile gives `None`. That the result depends on
/// the pattern and the text alone is taken on trust; what it is, is left
/// to the regular expressions.
#[verifier::external_body]
pub(crate) fn captures(pattern: &str, text: &str) -> (found: Option<Vec<Vec<Option<String>>>>)
    ensures
        groups_of(found) == regex_captures(pattern@, text@),
{
    let regex = regex::Regex::new(pattern).ok()?;
    let matches = regex.captures_iter(text);
    Some(matches.map(|c| c.iter().map(|g| g.map(|m| String::from(m.as_str()))).collect()).collect())
}

/// What the group `group` took in each match; nothing for a match in
/// which it took no part, and nothing at all where nothing was searched.
pub open spec fn group_of(found: Option<Seq<Seq<Option<Seq<char>>>>>, group: int) -> Seq<Seq<char>> {
    match found {
        Some(matches) => Seq::new(
            matches.len(),
            |i: int|
                if 0 <= group < matches[i].len() {
                    match matches[i][group] {
                        Some(part) => part,
                        None => Seq::empty(),
                    }
                } else {
                    Seq::empty()
                },
        ),
        None => Seq::empty(),
    }
}

/// The plain values of a row of strings.
pub open spec fn strings_view(strings: Seq<String>) -> Seq<Seq<char>> {
    Seq::new(strings.len(), |i: int| strings[i]@)
}

/// Picks out what one group took in each match.
pub fn group(found: &Option<Vec<Vec<Option<String>>>>, number: usize) -> (parts: Vec<String>)
    ensures
        strings_view(parts@) == group_of(groups_of(*found), number as int),
{
    let ghost all = group_of(groups_of(*found), number as int);
    let mut parts: Vec<String> = Vec::new();
    match found {
        Some(matches) => {
            let mut i: usize = 0;
            while i < matches.len()
                invariant
                    i <= matches@.len(),
                    found == Some(*matches),
                    all == group_of(groups_of(*found), number as int),
                    parts@.len() == i,
                    forall|k: int| 0 <= k < i ==> (#[trigger] parts@[k])@ == all[k],
                decreases matches@.len() - i,
            {
                let ghost row = groups_of(*found)->0[i as int];
                proof {
                    assert(row.len() == matches@[i as int]@.len());
                }
                let part = if number < matches[i].len() {
                    proof {
                        assert(row[number as int] == match matches@[i as int]@[number as int] {
                            Some(part) => Some(part@),
                            None => None,
                        });
                    }
                    match &matches[i][number] {
                        Some(part) => part.clone(),
                        None => String::new(),
                    }
                } else {
                    String::new()
                };
                proof {
                    assert(part@ == all[i as int]);
                }
                parts.push(part);
                i += 1;
            }
        },
        None => {},
    }
    proof {
        assert(strings_view(parts@) =~= all);
    }
    parts
}

} // verus!
