//! The YAML documents that `OK` responses carry.
use vstd::prelude::*;

use crate::parser::words_view;

verus! {

/// The YAML document of a list of tube names, as serde_yaml writes it.
pub uninterp spec fn yaml_of_names(names: Seq<Seq<u8>>) -> Seq<u8>;

/// Relies on serde_yaml::to_string: the YAML document of a list of strings,
/// which depends on the strings alone. It fails only where serialising the
/// value fails, the writer fails or the output is not UTF-8, none of which
/// happens for a list of strings written to memory. Tube names are ASCII, so
/// each turns into a string unchanged.
#[verifier::external_body]
pub(crate) fn names_to_yaml(names: &Vec<Vec<u8>>) -> (r: Option<Vec<u8>>)
    ensures
        r is Some,
        r matches Some(y) ==> y@ == yaml_of_names(words_view(names@)),
{
    let list: Vec<String> = names.iter().map(|n| String::from_utf8_lossy(n).into_owned()).collect();
    serde_yaml::to_string(&list).ok().map(String::into_bytes)
}

} // verus!
