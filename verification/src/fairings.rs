//! Request gating: which request paths may be served without a logged-in
//! user.

use crate::text::{compare_str, lemma_str_cmp_eq};
use vstd::prelude::*;

verus! {

/// How a whitelisted path is recognised: exactly, or by prefix.
#[derive(Debug)]
pub enum RouteMatcher {
    Exact(&'static str),
    Prefix(&'static str),
}

/// Whether a matcher accepts a path.
pub open spec fn spec_matches(m: RouteMatcher, path: Seq<char>) -> bool {
    match m {
        RouteMatcher::Exact(v) => path == v@,
        RouteMatcher::Prefix(v) => path.len() >= v@.len() && path.subrange(0, v@.len() as int)
            == v@,
    }
}

impl RouteMatcher {
    /// Whether this matcher accepts the path.
    pub fn matches(&self, path: &str) -> (r: bool)
        ensures
            r == spec_matches(*self, path@),
    {
        match self {
            RouteMatcher::Exact(value) => {
                let c = compare_str(path, value);
                proof {
                    lemma_str_cmp_eq(path@, value@);
                }
                c == 0
            },
            RouteMatcher::Prefix(value) => {
                let p_len: usize = value.unicode_len();
                let s_len: usize = path.unicode_len();
                if s_len < p_len {
                    return false;
                }
                let mut i: usize = 0;
                while i < p_len
                    invariant
                        i <= p_len,
                        p_len == value@.len(),
                        s_len == path@.len(),
                        p_len <= s_len,
                        forall|m: int| 0 <= m < i ==> path@[m] == value@[m],
                    ensures
                        i <= p_len,
                        forall|m: int| 0 <= m < i ==> path@[m] == value@[m],
                        i < p_len ==> path@[i as int] != value@[i as int],
                    decreases p_len - i,
                {
                    if path.get_char(i) != value.get_char(i) {
                        break;
                    }
                    i = i + 1;
                }
                if i == p_len {
                    proof {
                        assert(path@.subrange(0, value@.len() as int) =~= value@);
                    }
                    true
                } else {
                    proof {
                        assert(path@.subrange(0, value@.len() as int)[i as int] == path@[i as int]);
                    }
                    false
                }
            },
        }
    }
}

/// Guards every route: requests to paths outside the whitelist require a
/// logged-in user.
pub struct GateKeeper {
    pub allow_logged_out_access: Vec<RouteMatcher>,
}

impl GateKeeper {
    /// Whether some whitelist entry accepts the path.
    pub fn is_path_whitelisted(&self, path: &str) -> (r: bool)
        ensures
            r == exists|i: int|
                0 <= i < self.allow_logged_out_access@.len() && spec_matches(
                    #[trigger] self.allow_logged_out_access@[i],
                    path@,
                ),
    {
        let n: usize = self.allow_logged_out_access.len();
        for i in 0..n
            invariant
                n == self.allow_logged_out_access@.len(),
                forall|m: int|
                    0 <= m < i ==> !spec_matches(
                        #[trigger] self.allow_logged_out_access@[m],
                        path@,
                    ),
        {
            if self.allow_logged_out_access[i].matches(path) {
                return true;
            }
        }
        false
    }
}

} // verus!
