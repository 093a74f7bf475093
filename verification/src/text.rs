//! Character-level text helpers.
//!
//! Parsing and rendering work on `Vec<char>` buffers, whose view is the
//! same `Seq<char>` as the view of `String`; these helpers move between
//! the two representations.

use vstd::prelude::*;
use vstd::string::*;

verus! {

/// The characters of `s` as a vector, in order.
pub fn chars_of_str(s: &str) -> (r: Vec<char>)
    ensures
        r@ == s@,
{
    let n = s.unicode_len();
    let mut r: Vec<char> = Vec::new();
    let mut i: usize = 0;
    while i < n
        invariant
            0 <= i <= n,
            n == s@.len(),
            r@ == s@.subrange(0, i as int),
        decreases n - i,
    {
        r.push(s.get_char(i));
        proof {
            assert(r@ =~= s@.subrange(0, i + 1 as int));
        }
        i += 1;
    }
    proof {
        assert(r@ =~= s@);
    }
    r
}

/// The characters of `s` as a vector, in order.
pub fn chars_of_string(s: &String) -> (r: Vec<char>)
    ensures
        r@ == s@,
{
    chars_of_str(s.as_str())
}

/// Relies on `String`'s `FromIterator` implementation: collecting
/// characters yields the string made of exactly those characters.
#[verifier::external_body]
pub fn string_of_chars(v: &Vec<char>) -> (r: String)
    ensures
        r@ == v@,
{
    v.iter().collect()
}

/// Append every character of `s` to `buf`.
pub fn push_str_chars(buf: &mut Vec<char>, s: &str)
    ensures
        final(buf)@ == old(buf)@ + s@,
{
    let n = s.unicode_len();
    let mut i: usize = 0;
    while i < n
        invariant
            0 <= i <= n,
            n == s@.len(),
            buf@ == old(buf)@ + s@.subrange(0, i as int),
        decreases n - i,
    {
        buf.push(s.get_char(i));
        proof {
            assert(buf@ =~= old(buf)@ + s@.subrange(0, i + 1 as int));
        }
        i += 1;
    }
    proof {
        assert(buf@ =~= old(buf)@ + s@);
    }
}

/// The characters of `v` between `a` (inclusive) and `b` (exclusive).
pub fn subvec_chars(v: &Vec<char>, a: usize, b: usize) -> (r: Vec<char>)
    requires
        a <= b <= v@.len(),
    ensures
        r@ == v@.subrange(a as int, b as int),
{
    let mut r: Vec<char> = Vec::new();
    let mut i: usize = a;
    while i < b
        invariant
            a <= i <= b <= v@.len(),
            r@ == v@.subrange(a as int, i as int),
        decreases b - i,
    {
        r.push(v[i]);
        proof {
            assert(r@ =~= v@.subrange(a as int, i + 1 as int));
        }
        i += 1;
    }
    r
}

/// The first position at or after `i` where `c` stands, or `s.len()`.
pub open spec fn find_from(s: Seq<char>, i: int, c: char) -> int
    decreases s.len() - i,
{
    if i < 0 || i >= s.len() {
        s.len() as int
    } else if s[i] == c {
        i
    } else {
        find_from(s, i + 1, c)
    }
}

/// If no `c` stands in `[k, i)`, searching from `k` and from `i` agree.
pub proof fn lemma_find_from_skip(s: Seq<char>, k: int, i: int, c: char)
    requires
        0 <= k <= i <= s.len(),
        forall|j: int| k <= j < i ==> s[j] != c,
    ensures
        find_from(s, k, c) == find_from(s, i, c),
    decreases i - k,
{
    if k < i {
        lemma_find_from_skip(s, k + 1, i, c);
    }
}

/// Searching in a suffix mirrors searching in the whole sequence.
pub proof fn lemma_find_from_suffix(s: Seq<char>, pos: int, i: int, c: char)
    requires
        0 <= pos <= i <= s.len(),
    ensures
        find_from(s.subrange(pos, s.len() as int), i - pos, c) == find_from(s, i, c) - pos,
    decreases s.len() - i,
{
    if i < s.len() && s[i] != c {
        lemma_find_from_suffix(s, pos, i + 1, c);
    }
}

/// The lines of `s`: maximal runs between `'\n'` characters.  A final
/// newline closes the last line; it does not open an empty one.
pub open spec fn split_lines(s: Seq<char>) -> Seq<Seq<char>>
    decreases s.len(),
{
    if s.len() == 0 {
        Seq::empty()
    } else {
        let j = find_from(s, 0, '\n');
        if 0 <= j < s.len() {
            seq![s.subrange(0, j)] + split_lines(s.subrange(j + 1, s.len() as int))
        } else {
            seq![s]
        }
    }
}

/// The views of a vector of lines.
pub open spec fn lines_view(ls: Seq<Vec<char>>) -> Seq<Seq<char>> {
    ls.map_values(|l: Vec<char>| l@)
}

/// Split a character buffer into its lines.
pub fn split_lines_exec(v: &Vec<char>) -> (r: Vec<Vec<char>>)
    ensures
        lines_view(r@) == split_lines(v@),
{
    let n = v.len();
    let mut r: Vec<Vec<char>> = Vec::new();
    let mut pos: usize = 0;
    proof {
        assert(v@.subrange(0, n as int) =~= v@);
        assert(lines_view(r@) + split_lines(v@) =~= split_lines(v@));
    }
    while pos < n
        invariant
            0 <= pos <= n,
            n == v@.len(),
            split_lines(v@) == lines_view(r@) + split_lines(v@.subrange(pos as int, n as int)),
        decreases n - pos,
    {
        let ghost whole = v@;
        let ghost sub = v@.subrange(pos as int, n as int);
        let mut j: usize = pos;
        while j < n && v[j] != '\n'
            invariant
                pos <= j <= n,
                n == v@.len(),
                forall|m: int| pos <= m < j ==> v@[m] != '\n',
            decreases n - j,
        {
            j += 1;
        }
        proof {
            lemma_find_from_skip(whole, pos as int, j as int, '\n');
            assert(find_from(whole, pos as int, '\n') == j as int);
            lemma_find_from_suffix(whole, pos as int, pos as int, '\n');
            assert(find_from(sub, 0, '\n') == j - pos);
        }
        let line = subvec_chars(v, pos, j);
        r.push(line);
        if j < n {
            proof {
                assert(sub.subrange(0, j - pos) =~= whole.subrange(pos as int, j as int));
                assert(sub.subrange(j - pos + 1, sub.len() as int) =~= whole.subrange(
                    j + 1 as int,
                    n as int,
                ));
                assert(lines_view(r@) =~= lines_view(r@.drop_last()) + seq![whole.subrange(
                    pos as int,
                    j as int,
                )]);
                assert(split_lines(whole) == lines_view(r@) + split_lines(whole.subrange(
                    j + 1 as int,
                    n as int,
                )));
            }
            pos = j + 1;
        } else {
            proof {
                assert(sub =~= whole.subrange(pos as int, j as int));
                assert(split_lines(sub) == seq![sub]);
                assert(lines_view(r@) =~= lines_view(r@.drop_last()) + seq![sub]);
                assert(whole.subrange(j as int, n as int) =~= Seq::<char>::empty());
                assert(split_lines(whole) == lines_view(r@) + split_lines(whole.subrange(
                    j as int,
                    n as int,
                )));
            }
            pos = j;
        }
    }
    proof {
        assert(v@.subrange(pos as int, n as int) =~= Seq::<char>::empty());
        assert(lines_view(r@) + split_lines(v@.subrange(pos as int, n as int)) =~= lines_view(r@));
    }
    r
}

/// Whether `a` and `b` hold the same characters.
pub fn str_eq(a: &String, b: &str) -> (r: bool)
    ensures
        r == (a@ == b@),
{
    let va = chars_of_string(a);
    let vb = chars_of_str(b);
    chars_eq(&va, &vb)
}

/// Whether `c` occurs in `v`.
pub fn contains_char(v: &Vec<char>, c: char) -> (r: bool)
    ensures
        r == v@.contains(c),
{
    let mut i: usize = 0;
    while i < v.len()
        invariant
            0 <= i <= v@.len(),
            forall|j: int| 0 <= j < i ==> v@[j] != c,
        decreases v@.len() - i,
    {
        if v[i] == c {
            return true;
        }
        i += 1;
    }
    false
}

/// Whether two character vectors hold the same characters.
pub fn chars_eq(a: &Vec<char>, b: &Vec<char>) -> (r: bool)
    ensures
        r == (a@ == b@),
{
    if a.len() != b.len() {
        proof {
            assert(a@.len() != b@.len());
        }
        return false;
    }
    let mut i: usize = 0;
    while i < a.len()
        invariant
            0 <= i <= a@.len(),
            a@.len() == b@.len(),
            forall|j: int| 0 <= j < i ==> a@[j] == b@[j],
        decreases a@.len() - i,
    {
        if a[i] != b[i] {
            return false;
        }
        i += 1;
    }
    proof {
        assert(a@ =~= b@);
    }
    true
}

} // verus!
