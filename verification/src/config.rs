//! The configuration that the command line gives.

use crate::headers::same_text;
use crate::text::{lemma_prefix_len_is, prefix_len};
use vstd::prelude::*;

verus! {

/// The flag `--directory` stands last, with no directory after it.
#[derive(Debug, PartialEq, Eq, Clone, Copy, Structural)]
pub struct MissingValue;

/// The predicate "is not the flag `--directory`".
pub open spec fn other_argument() -> spec_fn(Seq<char>) -> bool {
    |argument: Seq<char>| argument != "--directory"@
}

/// The arguments as plain text.
pub open spec fn arguments_view(arguments: Seq<String>) -> Seq<Seq<char>> {
    Seq::new(arguments.len(), |i: int| arguments[i]@)
}

/// The directory for file routes that the arguments name: the argument
/// that follows the first `--directory`. Without the flag there is no
/// directory; a flag with nothing after it is a mistake.
pub open spec fn directory_named(arguments: Seq<Seq<char>>) -> Result<
    Option<Seq<char>>,
    MissingValue,
> {
    let at = prefix_len(arguments, other_argument()) as int;
    if at >= arguments.len() {
        Ok(None)
    } else if at + 1 < arguments.len() {
        Ok(Some(arguments[at + 1]))
    } else {
        Err(MissingValue)
    }
}

/// The value of a directory argument as it was read.
pub open spec fn directory_view(r: Result<Option<String>, MissingValue>) -> Result<
    Option<Seq<char>>,
    MissingValue,
> {
    match r {
        Ok(Some(d)) => Ok(Some(d@)),
        Ok(None) => Ok(None),
        Err(e) => Err(e),
    }
}

/// Reads the directory for file routes from the arguments of the
/// program.
pub fn directory_argument(arguments: &Vec<String>) -> (r: Result<Option<String>, MissingValue>)
    ensures
        directory_view(r) == directory_named(arguments_view(arguments@)),
{
    let ghost view = arguments_view(arguments@);
    let mut i: usize = 0;
    while i < arguments.len() && !same_text(arguments[i].as_str(), "--directory")
        invariant
            i <= arguments@.len(),
            view == arguments_view(arguments@),
            forall|j: int| 0 <= j < i ==> other_argument()(#[trigger] view[j]),
        decreases arguments@.len() - i,
    {
        i = i + 1;
    }
    proof {
        lemma_prefix_len_is(view, other_argument(), i as nat);
    }
    if i >= arguments.len() {
        Ok(None)
    } else if i + 1 < arguments.len() {
        Ok(Some(arguments[i + 1].clone()))
    } else {
        Err(MissingValue)
    }
}

} // verus!
