//! Package reference strings: `name` or `name==version`.
//!
//! A spec string is split on the first occurrence of `==` only; a
//! string without `==` carries an empty version, which later means
//! "resolve the latest published version".

use vstd::prelude::*;
use crate::text::{chars_of_string, string_of_chars, subvec_chars};

verus! {

/// Whether `==` stands at position `i` of `s`.
pub open spec fn sep_at(s: Seq<char>, i: int) -> bool {
    0 <= i && i + 2 <= s.len() && s[i] == '=' && s[i + 1] == '='
}

/// The first position at or after `i` where `==` stands, if any.
pub open spec fn first_sep_from(s: Seq<char>, i: int) -> Option<int>
    decreases s.len() - i,
{
    if i < 0 || i + 2 > s.len() {
        None
    } else if sep_at(s, i) {
        Some(i)
    } else {
        first_sep_from(s, i + 1)
    }
}

/// `(name, version)` of a spec string: the parts before and after the
/// first `==`, or the whole string and an empty version.
pub open spec fn split_pkg_spec(s: Seq<char>) -> (Seq<char>, Seq<char>) {
    match first_sep_from(s, 0) {
        Some(i) => (s.subrange(0, i), s.subrange(i + 2, s.len() as int)),
        None => (s, Seq::empty()),
    }
}

/// If no `==` stands in `[k, i)`, the first occurrence from `k` is the
/// first occurrence from `i`.
proof fn lemma_first_sep_skip(s: Seq<char>, k: int, i: int)
    requires
        0 <= k <= i,
        forall|j: int| k <= j < i ==> !sep_at(s, j),
    ensures
        first_sep_from(s, k) == first_sep_from(s, i),
    decreases i - k,
{
    if k < i {
        assert(!sep_at(s, k));
        lemma_first_sep_skip(s, k + 1, i);
    }
}

/// Split a package reference into its name and its pinned version; the
/// version is empty when the reference does not pin one.
pub fn split_package_spec(pkg: &String) -> (r: (String, String))
    ensures
        r.0@ == split_pkg_spec(pkg@).0,
        r.1@ == split_pkg_spec(pkg@).1,
{
    let v = chars_of_string(pkg);
    let n = v.len();
    let mut i: usize = 0;
    while i < n && i + 1 < n
        invariant
            0 <= i,
            i <= n == v@.len(),
            v@ == pkg@,
            forall|j: int| 0 <= j < i ==> !sep_at(v@, j),
        decreases n - i,
    {
        if v[i] == '=' && v[i + 1] == '=' {
            proof {
                assert(sep_at(v@, i as int));
                lemma_first_sep_skip(v@, 0, i as int);
                assert(first_sep_from(v@, i as int) == Some(i as int));
            }
            let name = string_of_chars(&subvec_chars(&v, 0, i));
            let ver = string_of_chars(&subvec_chars(&v, i + 2, n));
            return (name, ver);
        }
        proof {
            assert(!sep_at(v@, i as int));
        }
        i += 1;
    }
    proof {
        lemma_first_sep_skip(v@, 0, i as int);
        assert(first_sep_from(v@, i as int) is None);
        assert(split_pkg_spec(pkg@).0 == pkg@);
    }
    let name = string_of_chars(&v);
    (name, String::new())
}

} // verus!
