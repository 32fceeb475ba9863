//! The one rule traversal applies while walking directory trees: hidden
//! entries are skipped, and a hidden directory hides its whole subtree.
//! The walking itself is I/O and lives with the caller.
use vstd::prelude::*;

use vstd::string::StrSliceExecFns;

verus! {

/// A file or directory name marks a hidden entry when it begins with a dot.
pub open spec fn spec_is_hidden(name: Seq<char>) -> bool {
    name.len() > 0 && name[0] == '.'
}

/// Whether `name` marks a hidden entry, to be skipped by traversal together
/// with its subtree.
pub fn is_hidden(name: &str) -> (r: bool)
    ensures
        r == spec_is_hidden(name@),
{
    name.unicode_len() > 0 && name.get_char(0) == '.'
}

} // verus!
