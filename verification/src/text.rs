//! Comparison of string slices by their characters.

use vstd::prelude::*;
use vstd::std_specs::iter::IteratorSpec;

verus! {

broadcast use vstd::string::group_string_axioms;

/// Whether two string slices hold the same characters, decided in one pass
/// over both.
pub fn same_text(left: &str, right: &str) -> (same: bool)
    ensures
        same == (left@ == right@),
{
    let mut a = left.chars();
    let mut b = right.chars();
    let ghost mut seen: int = 0;
    loop
        invariant
            a.obeys_prophetic_iter_laws(),
            b.obeys_prophetic_iter_laws(),
            0 <= seen <= left@.len(),
            seen <= right@.len(),
            a.remaining() == left@.subrange(seen, left@.len() as int),
            b.remaining() == right@.subrange(seen, right@.len() as int),
            forall|k: int| 0 <= k < seen ==> left@[k] == right@[k],
        decreases left@.len() - seen,
    {
        match a.next() {
            Some(x) => {
                match b.next() {
                    Some(y) => {
                        if x != y {
                            assert(left@[seen] != right@[seen]);
                            return false;
                        }
                    },
                    None => {
                        assert(left@.len() != right@.len());
                        return false;
                    },
                }
                proof {
                    seen = seen + 1;
                }
            },
            None => {
                let end = b.next();
                proof {
                    if end is None {
                        assert(left@ =~= right@);
                    } else {
                        assert(left@.len() != right@.len());
                    }
                }
                return end.is_none();
            },
        }
    }
}

} // verus!
