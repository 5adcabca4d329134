//! Joining rendered pieces of text with a separator.

use vstd::prelude::*;
use vstd::string::StringSliceAdditionalSpecFns;

verus! {

/// The texts of a sequence of strings, each as its characters.
pub open spec fn texts(items: Seq<String>) -> Seq<Seq<char>> {
    items.map_values(|s: String| s@)
}

/// The items written one after another, with `sep` between each two
/// neighbours: nothing before the first item and nothing after the last.
pub open spec fn joined(items: Seq<Seq<char>>, sep: Seq<char>) -> Seq<char>
    decreases items.len(),
{
    if items.len() == 0 {
        Seq::empty()
    } else if items.len() == 1 {
        items[0]
    } else {
        joined(items.drop_last(), sep) + sep + items.last()
    }
}

/// Calls `itertools::join` on a slice of strings.
///
/// Trusted: the result is every item in order with `sep` between each two
/// neighbours, and the empty string for no items. The outside function sizes
/// its buffer as the separator's byte length times the number of items that
/// follow the first, so that product has to fit a `usize`.
#[verifier::external_body]
pub(crate) fn join_strings(items: &Vec<String>, sep: &str) -> (res: String)
    requires
        sep.spec_bytes().len() * items.len() <= usize::MAX,
    ensures
        res@ == joined(texts(items@), sep@),
{
    itertools::join(items, sep)
}

} // verus!
