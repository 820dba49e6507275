//! Names shared by the variable and job logic.

use vstd::prelude::*;
use vstd::string::*;
use crate::text::{has_suffix, ends_with};

verus! {

/// The script that prepares a job's dependencies.
pub const DEPS_SCRIPT: &'static str = "deps.sh";

/// The metadata file of a job.
pub const INFO_FILE: &'static str = "info.json";

/// The suffix that marks a variable as secure.
pub const SECURE_SUFFIX: &'static str = "_SECURE";

/// The secure suffix as characters.
pub open spec fn secure_suffix() -> Seq<char> {
    seq!['_', 'S', 'E', 'C', 'U', 'R', 'E']
}

/// Whether a variable name carries the secure suffix.
pub open spec fn is_secure(name: Seq<char>) -> bool {
    has_suffix(name, secure_suffix())
}

/// The variable name with the secure suffix taken off its end.
pub open spec fn stripped(name: Seq<char>) -> Seq<char> {
    if is_secure(name) {
        name.subrange(0, name.len() - secure_suffix().len())
    } else {
        name
    }
}

/// Splits a variable name into the name under which it is looked up and
/// whether it was marked secure.
pub fn secure_name_check(name: &str) -> (r: (String, bool))
    ensures
        r.0@ == stripped(name@),
        r.1 == is_secure(name@),
{
    proof {
        reveal_strlit("_SECURE");
        assert(SECURE_SUFFIX@ =~= secure_suffix());
    }
    let has_secure_suffix = ends_with(name, SECURE_SUFFIX);
    if has_secure_suffix {
        let n = name.unicode_len();
        (name.substring_char(0, n - SECURE_SUFFIX.unicode_len()).to_owned(), true)
    } else {
        (name.to_owned(), false)
    }
}

/// The secure suffix is taken off before every lookup: a secure name is its
/// key followed by the suffix, any other name is its own key, a name and the
/// same name marked secure share their key, and the key never ends in the
/// suffix unless the name ended in it twice.
pub proof fn lemma_secure_suffix_stripped(name: Seq<char>)
    ensures
        is_secure(name) ==> stripped(name) + secure_suffix() == name,
        !is_secure(name) ==> stripped(name) == name && !is_secure(stripped(name)),
        is_secure(name) && !is_secure(name.subrange(0, name.len() - secure_suffix().len())) ==> !is_secure(
            stripped(name),
        ),
        stripped(name + secure_suffix()) == name,
{
    let marked = name + secure_suffix();
    assert(marked.subrange(marked.len() - secure_suffix().len(), marked.len() as int) =~= secure_suffix());
    assert(marked.subrange(0, marked.len() - secure_suffix().len()) =~= name);
    if is_secure(name) {
        assert(stripped(name) + secure_suffix() =~= name);
    }
}

} // verus!
