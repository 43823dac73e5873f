//! Locations of the Antigravity CLI files, as plain strings.
//!
//! Paths are joined the way `PathBuf::push` does on Unix: an absolute
//! component replaces the path, otherwise a single `/` is inserted when the
//! base does not already end with one.

use vstd::prelude::*;

verus! {

/// The path that `base` joined with `comp` denotes.
pub open spec fn spec_join(base: Seq<char>, comp: Seq<char>) -> Seq<char> {
    if comp.len() > 0 && comp[0] == '/' {
        comp
    } else if base.len() == 0 {
        comp
    } else if base.last() == '/' {
        base + comp
    } else {
        base + seq!['/'] + comp
    }
}

/// Joins `comp` onto `base`.
pub fn join_path(base: &str, comp: &str) -> (res: String)
    ensures
        res@ == spec_join(base@, comp@),
{
    let comp_len = comp.unicode_len();
    if comp_len > 0 && comp.get_char(0) == '/' {
        return comp.to_owned();
    }
    let base_len = base.unicode_len();
    if base_len == 0 {
        return comp.to_owned();
    }
    let mut res = base.to_owned();
    if base.get_char(base_len - 1) != '/' {
        res.append("/");
        proof {
            reveal_strlit("/");
        }
    }
    res.append(comp);
    proof {
        assert(base@.last() == base@[base_len - 1]);
    }
    res
}

} // verus!
