//! The record built for one documentation file: its path relative to the
//! scan root, its verbatim content, a bounded prefix of that content, and
//! the heading lines under the file's dialect.

use vstd::prelude::*;

use crate::headings::{extract_headings, spec_headings};
use crate::path::{dialect_of_path, spec_dialect_of};
use crate::scan::{entries_doc_count, lemma_one_path_per_doc, spec_collect, Entry};

verus! {

/// The bound on `head`, counted in characters, not bytes.
pub const HEAD_CHARS: usize = 500;

/// One record per documentation file. Records are built once and never
/// mutated.
pub struct Doc {
    pub rel_path: String,
    pub content: String,
    pub head: String,
    pub headings: Vec<String>,
}

/// The bounded prefix of a content: its first `HEAD_CHARS` characters,
/// or all of it when it is shorter.
pub open spec fn spec_head(content: Seq<char>) -> Seq<char> {
    if content.len() <= HEAD_CHARS {
        content
    } else {
        content.take(HEAD_CHARS as int)
    }
}

impl Doc {
    /// What the record of a file with path `rel_path` and text `content`
    /// holds: the path and the text verbatim, the bounded prefix of the
    /// text, and exactly the lines that are headings under the dialect
    /// the path falls under, in file order.
    pub open spec fn is_record_of(self, rel_path: Seq<char>, content: Seq<char>) -> bool {
        &&& self.rel_path@ == rel_path
        &&& self.content@ == content
        &&& self.head@ == spec_head(content)
        &&& self.headings@.map_values(|l: String| l@) == spec_headings(
            spec_dialect_of(rel_path),
            content,
        )
    }
}

/// The first `HEAD_CHARS` characters of a content, or all of it when it
/// is shorter. Counted in characters: a multibyte character counts one.
pub fn head_of(content: &str) -> (h: String)
    ensures
        h@ == spec_head(content@),
{
    let n = content.unicode_len();
    let m = if n <= HEAD_CHARS {
        n
    } else {
        HEAD_CHARS
    };
    let h = content.substring_char(0, m).to_owned();
    proof {
        assert(h@ =~= spec_head(content@));
    }
    h
}

/// Builds the record of one collected file from its relative path and
/// its full text.
pub fn read_doc(rel_path: &str, content: &str) -> (d: Doc)
    ensures
        d.is_record_of(rel_path@, content@),
{
    let dialect = dialect_of_path(rel_path);
    let headings = extract_headings(dialect, content);
    let head = head_of(content);
    Doc { rel_path: rel_path.to_owned(), content: content.to_owned(), head, headings }
}

/// Builds one record per collected file, in the collector's order; each
/// input pairs a relative path with the file's text.
pub fn read_docs(inputs: &Vec<(String, String)>) -> (docs: Vec<Doc>)
    ensures
        docs@.len() == inputs@.len(),
        forall|i: int|
            0 <= i < docs@.len() ==> docs@[i].is_record_of(inputs@[i].0@, inputs@[i].1@),
{
    let mut docs: Vec<Doc> = Vec::new();
    let mut i: usize = 0;
    while i < inputs.len()
        invariant
            i <= inputs.len(),
            docs@.len() == i,
            forall|j: int|
                0 <= j < i ==> docs@[j].is_record_of(inputs@[j].0@, inputs@[j].1@),
        decreases inputs.len() - i,
    {
        let d = read_doc(inputs[i].0.as_str(), inputs[i].1.as_str());
        docs.push(d);
        i += 1;
    }
    docs
}

/// The `head` invariant: a record's prefix never exceeds the bound, is
/// exactly the content truncated to the bound, equals the content when
/// the content is short enough, and is a character-wise prefix of it.
pub proof fn lemma_head_invariant(content: Seq<char>)
    ensures
        spec_head(content).len() <= HEAD_CHARS,
        content.len() >= HEAD_CHARS ==> spec_head(content).len() == HEAD_CHARS,
        content.len() <= HEAD_CHARS ==> spec_head(content) == content,
        spec_head(content).is_prefix_of(content),
{
    if content.len() > HEAD_CHARS {
        assert(spec_head(content) =~= content.take(HEAD_CHARS as int));
        assert(spec_head(content).is_prefix_of(content));
    } else {
        assert(content.take(content.len() as int) =~= content);
        assert(spec_head(content).is_prefix_of(content));
    }
}

/// Exactly one record per documentation file, end to end: when the
/// inputs pair each collected path of a tree with a text, and the records
/// match the inputs, then each documentation file below the root has
/// exactly one record bearing its relative path, and every other file
/// has none.
pub proof fn lemma_one_record_per_doc_file(
    es: Seq<Entry>,
    inputs: Seq<(String, String)>,
    docs: Seq<Doc>,
    p: Seq<char>,
)
    requires
        inputs.map_values(|pr: (String, String)| pr.0@) == spec_collect(es),
        docs.len() == inputs.len(),
        forall|i: int|
            0 <= i < docs.len() ==> #[trigger] docs[i].is_record_of(inputs[i].0@, inputs[i].1@),
    ensures
        docs.map_values(|d: Doc| d.rel_path@).to_multiset().count(p) == entries_doc_count(
            Seq::empty(),
            es,
            p,
        ),
{
    lemma_one_path_per_doc(Seq::empty(), es, p);
    let doc_paths = docs.map_values(|d: Doc| d.rel_path@);
    let input_paths = inputs.map_values(|pr: (String, String)| pr.0@);
    assert forall|i: int| 0 <= i < docs.len() implies doc_paths[i] == input_paths[i] by {
        assert(docs[i].is_record_of(inputs[i].0@, inputs[i].1@));
    }
    assert(doc_paths =~= input_paths);
}

/// Reading an unchanged file twice yields content-identical records: a
/// record is a function of the path and the text alone.
pub proof fn lemma_read_deterministic(
    rel_path: Seq<char>,
    content: Seq<char>,
    d1: Doc,
    d2: Doc,
)
    requires
        d1.is_record_of(rel_path, content),
        d2.is_record_of(rel_path, content),
    ensures
        d1.rel_path@ == d2.rel_path@,
        d1.content@ == d2.content@,
        d1.head@ == d2.head@,
        d1.headings@.map_values(|l: String| l@) == d2.headings@.map_values(|l: String| l@),
{
}

} // verus!
