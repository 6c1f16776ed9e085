//! Sandbox folder access: where the user's real home directory is.

use vstd::prelude::*;

use crate::text::{find_text, occurs_at};

verus! {

/// The real home for a `HOME` value: under the sandbox, `HOME` is
/// `<home>/Library/Containers/<id>/Data`, and the part before the first
/// `/Library/Containers/` is the real home; otherwise `HOME` itself.
pub open spec fn real_home_of(home: Seq<char>) -> Seq<char> {
    if exists|i: int| occurs_at(home, "/Library/Containers/"@, i) {
        home.subrange(0, choose|i: int| occurs_at(home, "/Library/Containers/"@, i)
            && forall|j: int| 0 <= j < i ==> !occurs_at(home, "/Library/Containers/"@, j))
    } else {
        home
    }
}

/// The user's real home directory, even under the sandbox, given `HOME` (if set).
pub fn real_home(home: Option<&str>) -> (r: Option<String>)
    ensures
        match home {
            None => r.is_none(),
            Some(h) => r matches Some(s) && s@ == real_home_of(h@),
        },
{
    match home {
        None => None,
        Some(h) => match find_text(h, "/Library/Containers/") {
            Some(i) => {
                proof {
                    let c = choose|k: int| occurs_at(h@, "/Library/Containers/"@, k)
                        && forall|j: int| 0 <= j < k ==> !occurs_at(h@, "/Library/Containers/"@, j);
                    if c < i {
                    } else if c > i {
                        assert(!occurs_at(h@, "/Library/Containers/"@, i as int));
                    }
                    assert(c == i);
                }
                Some(String::from_str(h.substring_char(0, i)))
            },
            None => Some(String::from_str(h)),
        },
    }
}

} // verus!
