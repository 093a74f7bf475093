//! Requirements files: one package reference per line.
//!
//! A line that contains the comment marker `#` anywhere — not only at
//! its start — is dropped entirely; the remaining lines keep their
//! order.  A carriage return left at a line's end by a CRLF ending is
//! not part of the reference.

use vstd::prelude::*;
use crate::text::{
    chars_of_string, contains_char, lines_view, split_lines, split_lines_exec, string_of_chars,
    subvec_chars,
};

verus! {

/// A line survives filtering when it holds no comment marker.
pub open spec fn keeps_line(l: Seq<char>) -> bool {
    !l.contains('#')
}

/// The lines that survive filtering, in their original order.
pub open spec fn kept_lines(ls: Seq<Seq<char>>) -> Seq<Seq<char>>
    decreases ls.len(),
{
    if ls.len() == 0 {
        Seq::empty()
    } else {
        let rest = kept_lines(ls.drop_first());
        if keeps_line(ls[0]) {
            seq![ls[0]] + rest
        } else {
            rest
        }
    }
}

/// A line without the carriage return a CRLF ending leaves behind.
pub open spec fn trim_cr(l: Seq<char>) -> Seq<char> {
    if l.len() > 0 && l[l.len() - 1] == '\r' {
        l.drop_last()
    } else {
        l
    }
}

/// The package references named by a requirements file: its lines,
/// minus every line holding a comment marker, each without a trailing
/// carriage return.
pub open spec fn requirement_lines(text: Seq<char>) -> Seq<Seq<char>> {
    kept_lines(split_lines(text)).map_values(|l: Seq<char>| trim_cr(l))
}

/// Filtering keeps exactly the lines without a comment marker: every
/// surviving line is marker-free, every marker-free line survives, and
/// nothing else appears.
pub proof fn lemma_kept_lines(ls: Seq<Seq<char>>)
    ensures
        forall|i: int| 0 <= i < kept_lines(ls).len() ==> keeps_line(#[trigger] kept_lines(ls)[i]),
        forall|l: Seq<char>| ls.contains(l) && keeps_line(l) ==> kept_lines(ls).contains(l),
        forall|l: Seq<char>| kept_lines(ls).contains(l) ==> ls.contains(l),
    decreases ls.len(),
{
    if ls.len() > 0 {
        let tail = ls.drop_first();
        lemma_kept_lines(tail);
        let rest = kept_lines(tail);
        let r = kept_lines(ls);
        assert forall|l: Seq<char>| ls.contains(l) && keeps_line(l) implies r.contains(l) by {
            let i = choose|i: int| 0 <= i < ls.len() && ls[i] == l;
            if i == 0 {
                if keeps_line(ls[0]) {
                    assert(r[0] == l);
                }
            } else {
                assert(tail[i - 1] == l);
                assert(tail.contains(l));
                assert(rest.contains(l));
                let j = choose|j: int| 0 <= j < rest.len() && rest[j] == l;
                if keeps_line(ls[0]) {
                    assert(r[j + 1] == l);
                } else {
                    assert(r[j] == l);
                }
            }
        }
        assert forall|l: Seq<char>| r.contains(l) implies ls.contains(l) by {
            let i = choose|i: int| 0 <= i < r.len() && r[i] == l;
            if keeps_line(ls[0]) {
                if i == 0 {
                    assert(ls[0] == l);
                } else {
                    assert(rest[i - 1] == l);
                    assert(rest.contains(l));
                    assert(tail.contains(l));
                    let j = choose|j: int| 0 <= j < tail.len() && tail[j] == l;
                    assert(ls[j + 1] == l);
                }
            } else {
                assert(rest[i] == l);
                assert(rest.contains(l));
                assert(tail.contains(l));
                let j = choose|j: int| 0 <= j < tail.len() && tail[j] == l;
                assert(ls[j + 1] == l);
            }
        }
    }
}

/// Read the package references out of a requirements file: split it
/// into lines and drop every line containing a comment marker,
/// preserving the order of the rest.
pub fn requirement_specs(text: &String) -> (r: Vec<String>)
    ensures
        r@.map_values(|x: String| x@) == requirement_lines(text@),
{
    let chars = chars_of_string(text);
    let lines = split_lines_exec(&chars);
    let ghost lsv = lines_view(lines@);
    let ghost trim = |l: Seq<char>| trim_cr(l);
    let n = lines.len();
    let mut r: Vec<String> = Vec::new();
    proof {
        assert(lsv.subrange(0, lsv.len() as int) =~= lsv);
        assert(r@.map_values(|x: String| x@) + kept_lines(lsv).map_values(trim) =~= kept_lines(
            lsv,
        ).map_values(trim));
    }
    let mut i: usize = 0;
    while i < n
        invariant
            0 <= i <= n,
            n == lines@.len(),
            lsv == lines_view(lines@),
            lsv.len() == n,
            trim == (|l: Seq<char>| trim_cr(l)),
            requirement_lines(text@) == r@.map_values(|x: String| x@) + kept_lines(
                lsv.subrange(i as int, n as int),
            ).map_values(trim),
        decreases n - i,
    {
        let ghost sub = lsv.subrange(i as int, n as int);
        proof {
            assert(sub[0] == lsv[i as int]);
            assert(sub.drop_first() =~= lsv.subrange(i + 1 as int, n as int));
        }
        if !contains_char(&lines[i], '#') {
            assert(keeps_line(lsv[i as int]));
            proof {
                assert(kept_lines(sub).map_values(trim) =~= seq![trim_cr(lsv[i as int])]
                    + kept_lines(sub.drop_first()).map_values(trim));
            }
            let li = &lines[i];
            let len = li.len();
            let keep = if len > 0 && li[len - 1] == '\r' {
                len - 1
            } else {
                len
            };
            let trimmed = subvec_chars(li, 0, keep);
            proof {
                assert(trimmed@ =~= trim_cr(lsv[i as int]));
            }
            r.push(string_of_chars(&trimmed));
            proof {
                assert(r@.map_values(|x: String| x@) =~= r@.drop_last().map_values(|x: String| x@)
                    + seq![trim_cr(lsv[i as int])]);
            }
        } else {
            assert(!keeps_line(lsv[i as int]));
            proof {
                assert(kept_lines(sub).map_values(trim) =~= kept_lines(
                    sub.drop_first(),
                ).map_values(trim));
            }
        }
        i += 1;
    }
    proof {
        assert(lsv.subrange(i as int, n as int) =~= Seq::<Seq<char>>::empty());
        assert(kept_lines(Seq::<Seq<char>>::empty()).map_values(trim) =~= Seq::<
            Seq<char>,
        >::empty());
        assert(r@.map_values(|x: String| x@) + Seq::<Seq<char>>::empty() =~= r@.map_values(
            |x: String| x@,
        ));
    }
    r
}

} // verus!
