//! The word lists that text tests draw from.

use vstd::prelude::*;
use crate::text::views;

verus! {

/// The words used where a word list is missing or empty.
pub open spec fn fallback_words() -> Seq<Seq<char>> {
    seq![
        "the"@, "be"@, "of"@, "and"@, "to"@, "in"@, "have"@, "it"@, "that"@, "for"@,
        "they"@, "with"@, "as"@, "not"@, "on"@, "at"@, "this"@, "but"@, "or"@, "from"@,
    ]
}

/// The fallback word list.
pub fn fallback() -> (r: Vec<String>)
    ensures
        views(r@) == fallback_words(),
        r@.len() > 0,
{
    let r = vec![
        String::from_str("the"), String::from_str("be"), String::from_str("of"),
        String::from_str("and"), String::from_str("to"), String::from_str("in"),
        String::from_str("have"), String::from_str("it"), String::from_str("that"),
        String::from_str("for"), String::from_str("they"), String::from_str("with"),
        String::from_str("as"), String::from_str("not"), String::from_str("on"),
        String::from_str("at"), String::from_str("this"), String::from_str("but"),
        String::from_str("or"), String::from_str("from"),
    ];
    proof {
        assert(views(r@) =~= fallback_words());
    }
    r
}

/// The words of a list as it was read: the list where it parsed and is not
/// empty, the fallback words otherwise.
pub open spec fn words_from(parsed: Option<Vec<String>>) -> Seq<Seq<char>> {
    match parsed {
        Some(w) => if w@.len() > 0 {
            views(w@)
        } else {
            fallback_words()
        },
        None => fallback_words(),
    }
}

/// A word list as it was read: the words where the list parsed and is not
/// empty, the fallback words otherwise.
pub fn pool(parsed: Option<Vec<String>>) -> (r: Vec<String>)
    ensures
        r@.len() > 0,
        views(r@) == words_from(parsed),
{
    match parsed {
        Some(w) => {
            if w.len() > 0 {
                w
            } else {
                fallback()
            }
        },
        None => fallback(),
    }
}

} // verus!
