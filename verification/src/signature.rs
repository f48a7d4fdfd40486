//! The signature of a stack: its names in one line.

use crate::collapse::{collapse, collapsed};
use crate::symbols::{groups_view, names_of, stack_names, SymbolError};
use itertools::Itertools;
use vstd::prelude::*;
use vstd::string::*;

verus! {

/// The names of `names` in one text, with `separator` between each two.
pub open spec fn joined(names: Seq<Seq<char>>, separator: Seq<char>) -> Seq<char>
    decreases names.len(),
{
    if names.len() == 0 {
        Seq::empty()
    } else if names.len() == 1 {
        names[0]
    } else {
        joined(names.drop_last(), separator) + separator + names.last()
    }
}

/// The signature of a stack of names: the names with a semicolon between each
/// two.
pub open spec fn signature_of(names: Seq<Seq<char>>) -> Seq<char> {
    joined(names, seq![';'])
}

/// `Itertools::join` on the names in their order: each name as it is written,
/// and the separator between each two of them. No names give the empty text.
#[verifier::external_body]
fn join_names(names: &Vec<String>, separator: &str) -> (text: String)
    ensures
        text@ == joined(names.deep_view(), separator@),
{
    names.iter().join(separator)
}

/// Writes the signature of a stack of names.
pub fn signature(names: &Vec<String>) -> (text: String)
    ensures
        text@ == signature_of(names.deep_view()),
{
    proof {
        reveal_strlit(";");
        assert(";"@ =~= seq![';']);
    }
    join_names(names, ";")
}

/// Writes the signature under which a stack is counted: its names, outermost
/// first, with the recursive runs folded.
pub fn folded_signature(
    groups: &Vec<Result<Vec<String>, SymbolError>>,
    patterns: &Vec<Vec<String>>,
) -> (text: String)
    ensures
        text@ == signature_of(collapsed(names_of(groups_view(groups@)), patterns.deep_view())),
{
    let names = stack_names(groups);
    let kept = collapse(&names, patterns);
    signature(&kept)
}

} // verus!
