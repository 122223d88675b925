//! Heading lines of the two markup dialects. A line is a heading when it
//! starts with one or more of the dialect's marker characters (`#` for
//! markdown, `=` for asciidoc) followed by at least one whitespace
//! character; the rest of the line is free.

use vstd::prelude::*;

use crate::text::{is_space, spec_is_space, spec_lines, split_lines};

verus! {

/// The two supported markup dialects.
#[derive(Clone, Copy, PartialEq, Eq, Debug)]
pub enum Dialect {
    Markdown,
    Asciidoc,
}

/// The heading marker character of a dialect.
pub open spec fn spec_marker(d: Dialect) -> char {
    match d {
        Dialect::Markdown => '#',
        Dialect::Asciidoc => '=',
    }
}

/// The heading marker character of a dialect.
pub fn marker(d: Dialect) -> (c: char)
    ensures
        c == spec_marker(d),
{
    match d {
        Dialect::Markdown => '#',
        Dialect::Asciidoc => '=',
    }
}

/// A heading line under dialect `d`: some positive number of marker
/// characters, then a whitespace character, then anything.
pub open spec fn spec_is_heading_line(d: Dialect, l: Seq<char>) -> bool {
    exists|k: int|
        1 <= k < l.len() && spec_is_space(l[k]) && (forall|j: int| 0 <= j < k ==> l[j] == spec_marker(d))
}

/// Decides whether a line is a heading under dialect `d`, by measuring
/// the run of marker characters at the start of the line and testing the
/// character after it for whitespace.
pub fn is_heading_line(d: Dialect, line: &str) -> (r: bool)
    ensures
        r == spec_is_heading_line(d, line@),
{
    let m = marker(d);
    let n = line.unicode_len();
    let mut k: usize = 0;
    while k < n && line.get_char(k) == m
        invariant
            k <= n,
            n == line@.len(),
            m == spec_marker(d),
            forall|j: int| 0 <= j < k ==> line@[j] == spec_marker(d),
        decreases n - k,
    {
        k += 1;
    }
    let r = if 1 <= k && k < n {
        is_space(line.get_char(k))
    } else {
        false
    };
    proof {
        if r {
            assert(spec_is_heading_line(d, line@)) by {
                assert(1 <= k < line@.len() && spec_is_space(line@[k as int]) && (forall|j: int|
                    0 <= j < k ==> line@[j] == spec_marker(d)));
            }
        } else {
            assert(!spec_is_space(spec_marker(d)));
            assert forall|kk: int|
                1 <= kk < line@.len() && spec_is_space(line@[kk]) implies !(forall|j: int|
                0 <= j < kk ==> line@[j] == spec_marker(d)) by {
                if forall|j: int| 0 <= j < kk ==> line@[j] == spec_marker(d) {
                    // the marker run reaches at least to kk, so kk is not
                    // past the measured run k
                    if kk > k {
                        assert(line@[k as int] == spec_marker(d));
                        assert(false);
                    } else if kk < k {
                        assert(line@[kk] == spec_marker(d));
                        assert(false);
                    } else {
                        assert(false);
                    }
                }
            }
        }
    }
    r
}

/// The heading lines of a text under dialect `d`, in file order.
pub open spec fn spec_headings(d: Dialect, content: Seq<char>) -> Seq<Seq<char>> {
    spec_lines(content).filter(|l: Seq<char>| spec_is_heading_line(d, l))
}

/// Every extracted heading is verbatim one of the content's lines, and
/// is a heading line under the dialect; nothing is rewritten on the way.
pub proof fn lemma_headings_are_lines(d: Dialect, content: Seq<char>)
    ensures
        forall|i: int|
            0 <= i < spec_headings(d, content).len() ==> #[trigger] spec_lines(content).contains(
                spec_headings(d, content)[i],
            ),
        forall|i: int|
            0 <= i < spec_headings(d, content).len() ==> spec_is_heading_line(
                d,
                #[trigger] spec_headings(d, content)[i],
            ),
{
    let lines = spec_lines(content);
    let pred = |l: Seq<char>| spec_is_heading_line(d, l);
    let hs = lines.filter(pred);
    assert forall|i: int| 0 <= i < hs.len() implies lines.contains(hs[i]) && spec_is_heading_line(
        d,
        hs[i],
    ) by {
        lines.lemma_filter_pred(pred, i);
        assert(hs.contains(hs[i]));
        lines.lemma_filter_contains_rev(pred, hs[i]);
    }
}

/// Collects, in file order, the lines of `content` that are headings
/// under dialect `d`.
pub fn extract_headings(d: Dialect, content: &str) -> (r: Vec<String>)
    ensures
        r@.map_values(|l: String| l@) == spec_headings(d, content@),
{
    let lines = split_lines(content);
    let ghost lviews = lines@.map_values(|l: String| l@);
    let ghost pred = |l: Seq<char>| spec_is_heading_line(d, l);
    let mut r: Vec<String> = Vec::new();
    let mut i: usize = 0;
    proof {
        reveal(Seq::filter);
        assert(r@.map_values(|l: String| l@) =~= lviews.take(0).filter(pred));
    }
    while i < lines.len()
        invariant
            i <= lines.len(),
            lviews == lines@.map_values(|l: String| l@),
            pred == |l: Seq<char>| spec_is_heading_line(d, l),
            r@.map_values(|l: String| l@) == lviews.take(i as int).filter(pred),
        decreases lines.len() - i,
    {
        let ghost views_before = r@.map_values(|l: String| l@);
        let keep = is_heading_line(d, &lines[i]);
        if keep {
            let line = lines[i].clone();
            assert(line@ == lines@[i as int]@);
            r.push(line);
        }
        proof {
            reveal(Seq::filter);
            let t = lviews.take(i + 1);
            assert(t.drop_last() =~= lviews.take(i as int));
            assert(t.last() == lviews[i as int]);
            if keep {
                assert(r@.map_values(|l: String| l@) =~= views_before.push(lviews[i as int]));
            }
        }
        i += 1;
    }
    proof {
        assert(lviews.take(lines@.len() as int) =~= lviews);
    }
    r
}

} // verus!
