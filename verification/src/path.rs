//! Path names as character sequences: the file name of a slash-separated
//! relative path, the extension of a file name (the part after its last
//! dot, with the conventions of `std::path::Path::extension`), which
//! names are documentation files, and which dialect a path falls under.

use vstd::prelude::*;

use crate::headings::Dialect;

verus! {

/// Index of the last occurrence of `c` in `s`, or `-1` if `c` does not
/// occur.
pub open spec fn last_index(s: Seq<char>, c: char) -> int
    decreases s.len(),
{
    if s.len() == 0 {
        -1
    } else if s.last() == c {
        s.len() - 1
    } else {
        last_index(s.drop_last(), c)
    }
}

pub proof fn lemma_last_index_props(s: Seq<char>, c: char)
    ensures
        -1 <= last_index(s, c) < s.len(),
        last_index(s, c) >= 0 ==> s[last_index(s, c)] == c,
        forall|j: int| last_index(s, c) < j < s.len() ==> s[j] != c,
    decreases s.len(),
{
    if s.len() > 0 && s.last() != c {
        lemma_last_index_props(s.drop_last(), c);
        assert forall|j: int| last_index(s, c) < j < s.len() implies s[j] != c by {
            if j < s.len() - 1 {
                assert(s.drop_last()[j] == s[j]);
            }
        }
    }
}

/// `last_index` is pinned down by its characteristic properties: an
/// index that bears `c` with no occurrence of `c` after it is the last.
pub proof fn lemma_last_index_unique(s: Seq<char>, c: char, j: int)
    requires
        0 <= j < s.len(),
        s[j] == c,
        forall|m: int| j < m < s.len() ==> s[m] != c,
    ensures
        last_index(s, c) == j,
    decreases s.len(),
{
    if j < s.len() - 1 {
        lemma_last_index_unique(s.drop_last(), c, j);
    }
}

/// Index of the last occurrence of `c`, scanning from the end.
pub fn rfind_char(s: &str, c: char) -> (r: Option<usize>)
    ensures
        match r {
            Option::Some(j) => last_index(s@, c) == j as int,
            Option::None => last_index(s@, c) == -1,
        },
{
    let n = s.unicode_len();
    let mut k: usize = n;
    while k > 0
        invariant
            k <= n,
            n == s@.len(),
            forall|j: int| k <= j < n ==> s@[j] != c,
        decreases k,
    {
        if s.get_char(k - 1) == c {
            proof {
                lemma_last_index_unique(s@, c, k - 1);
            }
            return Some(k - 1);
        }
        k -= 1;
    }
    proof {
        lemma_last_index_props(s@, c);
    }
    None
}

/// The extension of a file name: the part after the last dot, or nothing
/// when the name has no dot, when the only dot is the leading character
/// (a hidden file), or when the name is the parent-directory entry.
/// These are the conventions of `std::path::Path::extension`.
pub open spec fn spec_extension_of(name: Seq<char>) -> Option<Seq<char>> {
    if name == seq!['.', '.'] {
        None
    } else {
        let j = last_index(name, '.');
        if j <= 0 {
            None
        } else {
            Some(name.subrange(j + 1, name.len() as int))
        }
    }
}

/// The extension of a file name, or `None` where the name has none.
pub fn extension_of(name: &str) -> (r: Option<String>)
    ensures
        match r {
            Option::Some(e) => spec_extension_of(name@) == Some(e@),
            Option::None => spec_extension_of(name@) is None,
        },
{
    let n = name.unicode_len();
    if n == 2 && name.get_char(0) == '.' && name.get_char(1) == '.' {
        proof {
            assert(name@ =~= seq!['.', '.']);
        }
        return None;
    }
    proof {
        if name@.len() == 2 {
            assert(name@ != seq!['.', '.']) by {
                if name@ == seq!['.', '.'] {
                    assert(name@[0] == '.' && name@[1] == '.');
                }
            }
        } else {
            assert(name@ != seq!['.', '.']) by {
                assert(seq!['.', '.'].len() == 2);
            }
        }
    }
    match rfind_char(name, '.') {
        None => None,
        Some(j) => {
            if j == 0 {
                None
            } else {
                proof {
                    lemma_last_index_props(name@, '.');
                }
                Some(name.substring_char(j + 1, n).to_owned())
            }
        },
    }
}

/// The names of documentation files: those whose extension is exactly
/// `md` or `adoc`, case-sensitively.
pub open spec fn spec_is_doc_name(name: Seq<char>) -> bool {
    spec_extension_of(name) == Some(seq!['m', 'd']) || spec_extension_of(name) == Some(
        seq!['a', 'd', 'o', 'c'],
    )
}

/// Decides whether a file name is a documentation file name.
pub fn is_doc_name(name: &str) -> (r: bool)
    ensures
        r == spec_is_doc_name(name@),
{
    proof {
        reveal_strlit("md");
        reveal_strlit("adoc");
        assert("md"@ =~= seq!['m', 'd']);
        assert("adoc"@ =~= seq!['a', 'd', 'o', 'c']);
    }
    match extension_of(name) {
        None => false,
        Some(ext) => {
            let is_md = ext == String::from_str("md");
            let is_adoc = ext == String::from_str("adoc");
            is_md || is_adoc
        },
    }
}

/// The file name of a slash-separated relative path: everything after
/// the last `/`, or the whole path when it has no `/`.
pub open spec fn spec_file_name_of(p: Seq<char>) -> Seq<char> {
    p.subrange(last_index(p, '/') + 1, p.len() as int)
}

/// The dialect of a path: asciidoc when its file name carries the `adoc`
/// extension, markdown otherwise.
pub open spec fn spec_dialect_of(p: Seq<char>) -> Dialect {
    if spec_extension_of(spec_file_name_of(p)) == Some(seq!['a', 'd', 'o', 'c']) {
        Dialect::Asciidoc
    } else {
        Dialect::Markdown
    }
}

/// The dialect a path falls under, read off its file name's extension.
pub fn dialect_of_path(p: &str) -> (d: Dialect)
    ensures
        d == spec_dialect_of(p@),
{
    let n = p.unicode_len();
    let start = match rfind_char(p, '/') {
        Some(j) => {
            proof {
                lemma_last_index_props(p@, '/');
            }
            j + 1
        },
        None => 0,
    };
    let file_name = p.substring_char(start, n);
    proof {
        assert(file_name@ =~= spec_file_name_of(p@));
        reveal_strlit("adoc");
        assert("adoc"@ =~= seq!['a', 'd', 'o', 'c']);
    }
    let is_adoc = match extension_of(file_name) {
        Some(ext) => ext == String::from_str("adoc"),
        None => false,
    };
    if is_adoc {
        Dialect::Asciidoc
    } else {
        Dialect::Markdown
    }
}

} // verus!
