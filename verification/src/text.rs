//! Line-level text model: Unicode whitespace, and splitting a text into
//! lines the way Rust's `str::lines` does (split at `'\n'`, dropping a
//! carriage return that stands immediately before the newline; a final
//! line terminator is optional).

use vstd::prelude::*;

verus! {

/// The Unicode `White_Space` characters, written out one by one.
/// This is the set that a heading marker run must be followed by.
pub open spec fn spec_is_space(c: char) -> bool {
    c == ' ' || c == '\t' || c == '\n' || c == '\u{000B}' || c == '\u{000C}' || c == '\r'
        || c == '\u{0085}' || c == '\u{00A0}' || c == '\u{1680}' || c == '\u{2000}'
        || c == '\u{2001}' || c == '\u{2002}' || c == '\u{2003}' || c == '\u{2004}'
        || c == '\u{2005}' || c == '\u{2006}' || c == '\u{2007}' || c == '\u{2008}'
        || c == '\u{2009}' || c == '\u{200A}' || c == '\u{2028}' || c == '\u{2029}'
        || c == '\u{202F}' || c == '\u{205F}' || c == '\u{3000}'
}

/// Decides Unicode whitespace, character by character.
pub fn is_space(c: char) -> (r: bool)
    ensures
        r == spec_is_space(c),
{
    match c {
        ' ' | '\t' | '\n' | '\u{000B}' | '\u{000C}' | '\r' | '\u{0085}' | '\u{00A0}'
            | '\u{1680}' | '\u{2000}' | '\u{2001}' | '\u{2002}' | '\u{2003}' | '\u{2004}'
            | '\u{2005}' | '\u{2006}' | '\u{2007}' | '\u{2008}' | '\u{2009}' | '\u{200A}'
            | '\u{2028}' | '\u{2029}' | '\u{202F}' | '\u{205F}' | '\u{3000}' => true,
        _ => false,
    }
}

/// Index of the first `'\n'` at or after `i`, or `s.len()` if there is none.
pub open spec fn find_nl(s: Seq<char>, i: int) -> int
    decreases s.len() - i,
{
    if i < 0 || i >= s.len() {
        s.len() as int
    } else if s[i] == '\n' {
        i
    } else {
        find_nl(s, i + 1)
    }
}

pub proof fn lemma_find_nl_bounds(s: Seq<char>, i: int)
    requires
        0 <= i <= s.len(),
    ensures
        i <= find_nl(s, i) <= s.len(),
        find_nl(s, i) < s.len() ==> s[find_nl(s, i)] == '\n',
        forall|k: int| i <= k < find_nl(s, i) ==> s[k] != '\n',
    decreases s.len() - i,
{
    if i < s.len() && s[i] != '\n' {
        lemma_find_nl_bounds(s, i + 1);
    }
}

/// `find_nl` is pinned down by its characteristic properties: any index
/// that bears a newline and has none before it (from `i` on) is `find_nl`.
pub proof fn lemma_find_nl_unique(s: Seq<char>, i: int, j: int)
    requires
        0 <= i <= j <= s.len(),
        forall|k: int| i <= k < j ==> s[k] != '\n',
        j < s.len() ==> s[j] == '\n',
    ensures
        find_nl(s, i) == j,
    decreases j - i,
{
    if i < j {
        lemma_find_nl_unique(s, i + 1, j);
    }
}

/// A line piece with a trailing carriage return removed, as `str::lines`
/// removes it when the piece was terminated by a newline.
pub open spec fn chomp_cr(piece: Seq<char>) -> Seq<char> {
    if piece.len() > 0 && piece.last() == '\r' {
        piece.drop_last()
    } else {
        piece
    }
}

/// The lines of `s` starting at index `i`: split at `'\n'`, with a
/// carriage return immediately before a `'\n'` dropped, and no empty
/// final line when the text ends in a terminator.
pub open spec fn spec_lines_from(s: Seq<char>, i: int) -> Seq<Seq<char>>
    decreases s.len() - i,
    when 0 <= i
    via spec_lines_from_dec
{
    if i >= s.len() {
        Seq::empty()
    } else {
        let j = find_nl(s, i);
        if j >= s.len() {
            seq![s.subrange(i, s.len() as int)]
        } else {
            seq![chomp_cr(s.subrange(i, j))] + spec_lines_from(s, j + 1)
        }
    }
}

#[via_fn]
proof fn spec_lines_from_dec(s: Seq<char>, i: int) {
    if 0 <= i < s.len() {
        lemma_find_nl_bounds(s, i);
    }
}

/// The lines of a text, with the semantics of `str::lines`.
pub open spec fn spec_lines(s: Seq<char>) -> Seq<Seq<char>> {
    spec_lines_from(s, 0)
}

/// Splits a text into its lines: pieces between newlines, each with a
/// carriage return that stood right before the newline removed, and with
/// no empty final piece when the text ends in a line terminator.
pub fn split_lines(s: &str) -> (r: Vec<String>)
    ensures
        r@.map_values(|l: String| l@) == spec_lines(s@),
{
    let n = s.unicode_len();
    let mut r: Vec<String> = Vec::new();
    let mut i: usize = 0;
    proof {
        assert(r@.map_values(|l: String| l@) + spec_lines_from(s@, 0) =~= spec_lines(s@));
    }
    while i < n
        invariant
            i <= n,
            n == s@.len(),
            r@.map_values(|l: String| l@) + spec_lines_from(s@, i as int) == spec_lines(s@),
        decreases n - i,
    {
        // scan for the next newline
        let mut j: usize = i;
        while j < n && s.get_char(j) != '\n'
            invariant
                i <= j <= n,
                n == s@.len(),
                forall|k: int| i <= k < j ==> s@[k] != '\n',
            decreases n - j,
        {
            j += 1;
        }
        proof {
            lemma_find_nl_unique(s@, i as int, j as int);
        }
        let ghost views_before = r@.map_values(|l: String| l@);
        let ghost line_view: Seq<char>;
        if j < n {
            let end = if j > i && s.get_char(j - 1) == '\r' {
                j - 1
            } else {
                j
            };
            let line = s.substring_char(i, end).to_owned();
            proof {
                line_view = line@;
                assert(line@ =~= chomp_cr(s@.subrange(i as int, j as int)));
            }
            r.push(line);
            i = j + 1;
        } else {
            let line = s.substring_char(i, n).to_owned();
            proof {
                line_view = line@;
            }
            r.push(line);
            i = n;
        }
        proof {
            assert(r@.map_values(|l: String| l@) =~= views_before.push(line_view));
            assert(views_before.push(line_view) + spec_lines_from(s@, i as int) =~= views_before
                + (seq![line_view] + spec_lines_from(s@, i as int)));
        }
    }
    proof {
        assert(r@.map_values(|l: String| l@) + spec_lines_from(s@, i as int) =~= r@.map_values(
            |l: String| l@,
        ));
    }
    r
}

} // verus!
