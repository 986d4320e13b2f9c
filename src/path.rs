//! Confinement of requested file names to the served directory.
use vstd::prelude::*;
use vstd::string::StrSliceExecFns;

verus! {

/// `..` stands as a whole path component at index `i`.
pub open spec fn parent_at(name: Seq<char>, i: int) -> bool {
    &&& 0 <= i
    &&& i + 1 < name.len()
    &&& name[i] == '.'
    &&& name[i + 1] == '.'
    &&& (i == 0 || name[i - 1] == '/')
    &&& (i + 2 == name.len() || name[i + 2] == '/')
}

/// A requested name that, joined to the root, stays below it: not empty, not
/// absolute, no backslash separators, no `..` component.
pub open spec fn confined(name: Seq<char>) -> bool {
    &&& name.len() > 0
    &&& name[0] != '/'
    &&& forall|i: int| 0 <= i < name.len() ==> name[i] != '\\'
    &&& forall|i: int| !#[trigger] parent_at(name, i)
}

/// Whether `name` is confined to the root directory.
pub fn is_confined(name: &str) -> (r: bool)
    ensures
        r == confined(name@),
{
    let n = name.unicode_len();
    if n == 0 || name.get_char(0) == '/' {
        return false;
    }
    let mut i: usize = 0;
    while i < n
        invariant
            n == name@.len(),
            i <= n,
            forall|j: int| 0 <= j < i ==> name@[j] != '\\',
            forall|j: int| 0 <= j < i ==> !parent_at(name@, j),
        decreases n - i,
    {
        let c = name.get_char(i);
        if c == '\\' {
            return false;
        }
        if c == '.' && i + 1 < n && name.get_char(i + 1) == '.' && (i == 0 || name.get_char(i - 1) == '/')
            && (i + 2 == n || name.get_char(i + 2) == '/') {
            assert(parent_at(name@, i as int));
            return false;
        }
        i = i + 1;
    }
    assert forall|j: int| !#[trigger] parent_at(name@, j) by {
        if 0 <= j < n {
        }
    }
    true
}

} // verus!
