//! Telling whether a message addresses the bot by name.

use vstd::prelude::*;

verus! {

/// What searching `text` with the regular expression `pattern` gives: `None`
/// where `pattern` does not compile, else whether it matches somewhere in `text`.
pub uninterp spec fn regex_search(pattern: Seq<char>, text: Seq<char>) -> Option<bool>;

/// Relies on `regex::Regex::new`, which compiles `pattern` or reports it malformed,
/// and on `regex::Regex::is_match`, which tells whether the compiled expression
/// matches anywhere in `text`. Both depend on their arguments alone.
#[verifier::external_body]
fn pattern_search(pattern: &str, text: &str) -> (r: Option<bool>)
    ensures
        r == regex_search(pattern@, text@),
{
    match regex::Regex::new(pattern) {
        Ok(re) => Some(re.is_match(text)),
        Err(_) => None,
    }
}

/// The expression that finds a mention of `username`: an at sign, the name,
/// then a line break, a blank or the end of the text.
pub open spec fn mention_pattern(username: Seq<char>) -> Seq<char> {
    seq!['@'] + username + "(\\n|\\s|$)"@
}

/// Builds the expression that finds a mention of `username`.
pub fn mention_pattern_of(username: &str) -> (r: String)
    ensures
        r@ == mention_pattern(username@),
{
    proof {
        reveal_strlit("@");
    }
    let mut out = String::from_str("@");
    out.append(username);
    out.append("(\\n|\\s|$)");
    assert(out@ =~= mention_pattern(username@));
    out
}

/// Whether a search for a mention found one: only a pattern that compiled
/// and matched counts.
pub fn mention_found(search: Option<bool>) -> (r: bool)
    ensures
        r == (search == Some(true)),
{
    match search {
        Some(found) => found,
        None => false,
    }
}

/// Whether a message with text `text` addresses the bot named `username`:
/// it mentions `@username`, followed by a line break, a blank or the end of
/// the text. A message without text, or a name that makes no valid
/// expression, addresses nobody.
pub fn target_me(username: &str, text: Option<&str>) -> (r: bool)
    ensures
        r == match text {
            None => false,
            Some(t) => regex_search(mention_pattern(username@), t@) == Some(true),
        },
{
    match text {
        None => false,
        Some(t) => {
            let pattern = mention_pattern_of(username);
            mention_found(pattern_search(pattern.as_str(), t))
        },
    }
}

} // verus!
