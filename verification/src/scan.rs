//! A model of the scanned directory tree, and the path collector: a
//! depth-first walk that gathers, relative to the scan root, the paths of
//! every file whose name carries a documentation extension.
//!
//! A tree mirrors what the filesystem enumeration yielded; the order of
//! sibling entries is whatever that enumeration gave and carries no
//! meaning. Symlink cycles are not modelled: a tree is finite by
//! construction, as the scan of an acyclic filesystem is.

use vstd::prelude::*;

use crate::path::{is_doc_name, spec_is_doc_name};

verus! {

/// One entry of the scanned tree: a plain file, or a directory with the
/// entries enumerated inside it. Names are single path components and
/// hold no separator.
pub enum Entry {
    File { name: String },
    Dir { name: String, entries: Vec<Entry> },
}

/// The collected paths of one entry seen under `prefix`: a file
/// contributes its own path when its name is a documentation name, a
/// directory contributes whatever its entries contribute under the
/// extended prefix.
pub open spec fn collect_entry(prefix: Seq<char>, e: Entry) -> Seq<Seq<char>>
    decreases e,
{
    match e {
        Entry::File { name } => if spec_is_doc_name(name@) {
            seq![prefix + name@]
        } else {
            Seq::empty()
        },
        Entry::Dir { name, entries } => collect_entries(prefix + name@ + seq!['/'], entries@),
    }
}

/// The collected paths of a list of sibling entries, in enumeration
/// order, each under `prefix`.
pub open spec fn collect_entries(prefix: Seq<char>, es: Seq<Entry>) -> Seq<Seq<char>>
    decreases es,
{
    if es.len() == 0 {
        Seq::empty()
    } else {
        collect_entry(prefix, es[0]) + collect_entries(prefix, es.drop_first())
    }
}

/// The paths collected from a whole tree, relative to the scan root.
pub open spec fn spec_collect(es: Seq<Entry>) -> Seq<Seq<char>> {
    collect_entries(Seq::empty(), es)
}

/// Whether an entry holds, anywhere below it, a file whose name is a
/// documentation name.
pub open spec fn entry_has_doc(e: Entry) -> bool
    decreases e,
{
    match e {
        Entry::File { name } => spec_is_doc_name(name@),
        Entry::Dir { name, entries } => entries_have_doc(entries@),
    }
}

/// Whether any of a list of entries holds a documentation file.
pub open spec fn entries_have_doc(es: Seq<Entry>) -> bool
    decreases es,
{
    if es.len() == 0 {
        false
    } else {
        entry_has_doc(es[0]) || entries_have_doc(es.drop_first())
    }
}

/// A tree that holds only non-documentation files yields nothing: the
/// collector returns the empty sequence, whatever the prefix.
pub proof fn lemma_no_docs_collects_nothing(prefix: Seq<char>, es: Seq<Entry>)
    requires
        !entries_have_doc(es),
    ensures
        collect_entries(prefix, es) == Seq::<Seq<char>>::empty(),
    decreases es,
{
    if es.len() > 0 {
        lemma_entry_no_doc_collects_nothing(prefix, es[0]);
        lemma_no_docs_collects_nothing(prefix, es.drop_first());
        assert(collect_entries(prefix, es) =~= Seq::<Seq<char>>::empty());
    }
}

/// An entry that holds no documentation file yields nothing.
pub proof fn lemma_entry_no_doc_collects_nothing(prefix: Seq<char>, e: Entry)
    requires
        !entry_has_doc(e),
    ensures
        collect_entry(prefix, e) == Seq::<Seq<char>>::empty(),
    decreases e,
{
    match e {
        Entry::File { name } => {
        },
        Entry::Dir { name, entries } => {
            lemma_no_docs_collects_nothing(prefix + name@ + seq!['/'], entries@);
        },
    }
}

/// How many files below one entry, seen under `prefix`, are
/// documentation files whose collected path would be exactly `p`.
pub open spec fn entry_doc_count(prefix: Seq<char>, e: Entry, p: Seq<char>) -> nat
    decreases e,
{
    match e {
        Entry::File { name } => if spec_is_doc_name(name@) && prefix + name@ == p {
            1
        } else {
            0
        },
        Entry::Dir { name, entries } => entries_doc_count(prefix + name@ + seq!['/'], entries@, p),
    }
}

/// How many files below a list of entries would be collected as `p`.
pub open spec fn entries_doc_count(prefix: Seq<char>, es: Seq<Entry>, p: Seq<char>) -> nat
    decreases es,
{
    if es.len() == 0 {
        0
    } else {
        entry_doc_count(prefix, es[0], p) + entries_doc_count(prefix, es.drop_first(), p)
    }
}

/// Each documentation file below the root is collected exactly once, and
/// nothing else is collected: a path occurs in the collector's output as
/// many times as there are documentation files that bear it, however
/// deeply nested they stand.
pub proof fn lemma_one_path_per_doc(prefix: Seq<char>, es: Seq<Entry>, p: Seq<char>)
    ensures
        collect_entries(prefix, es).to_multiset().count(p) == entries_doc_count(prefix, es, p),
    decreases es,
{
    broadcast use vstd::seq_lib::group_to_multiset_ensures;

    if es.len() == 0 {
        Seq::<Seq<char>>::empty().to_multiset_ensures();
        assert(!Seq::<Seq<char>>::empty().contains(p));
    } else {
        lemma_one_entry_per_doc(prefix, es[0], p);
        lemma_one_path_per_doc(prefix, es.drop_first(), p);
        vstd::seq_lib::lemma_multiset_commutative(
            collect_entry(prefix, es[0]),
            collect_entries(prefix, es.drop_first()),
        );
    }
}

/// Each documentation file below one entry is collected exactly once.
pub proof fn lemma_one_entry_per_doc(prefix: Seq<char>, e: Entry, p: Seq<char>)
    ensures
        collect_entry(prefix, e).to_multiset().count(p) == entry_doc_count(prefix, e, p),
    decreases e,
{
    broadcast use vstd::seq_lib::group_to_multiset_ensures;

    match e {
        Entry::File { name } => {
            Seq::<Seq<char>>::empty().to_multiset_ensures();
            assert(!Seq::<Seq<char>>::empty().contains(p));
            if spec_is_doc_name(name@) {
                assert(seq![prefix + name@] =~= Seq::<Seq<char>>::empty().push(prefix + name@));
            }
        },
        Entry::Dir { name, entries } => {
            lemma_one_path_per_doc(prefix + name@ + seq!['/'], entries@, p);
        },
    }
}

/// The name an entry goes by in its directory.
pub open spec fn entry_name(e: Entry) -> Seq<char> {
    match e {
        Entry::File { name } => name@,
        Entry::Dir { name, entries } => name@,
    }
}

/// A well-formed entry, as a filesystem enumeration yields it: its name
/// is a nonempty single component without a separator, and so are all
/// the names below it.
pub open spec fn entry_wf(e: Entry) -> bool
    decreases e,
{
    match e {
        Entry::File { name } => name@.len() > 0 && !name@.contains('/'),
        Entry::Dir { name, entries } => name@.len() > 0 && !name@.contains('/') && entries_wf(
            entries@,
        ),
    }
}

/// A well-formed list of sibling entries: each entry well formed, and no
/// two siblings under the same name.
pub open spec fn entries_wf(es: Seq<Entry>) -> bool
    decreases es,
{
    &&& (forall|i: int| 0 <= i < es.len() ==> entry_wf(#[trigger] es[i]))
    &&& (forall|i: int, j: int|
        0 <= i < j < es.len() ==> entry_name(es[i]) != entry_name(es[j]))
}

/// A path that lies under `prefix` within the entry named `name`: it
/// starts with `prefix` followed by `name`, and what follows the name, if
/// anything, opens with a separator.
pub open spec fn path_in_entry(p: Seq<char>, prefix: Seq<char>, name: Seq<char>) -> bool {
    &&& p.len() >= prefix.len() + name.len()
    &&& p.subrange(0, prefix.len() as int) == prefix
    &&& p.subrange(prefix.len() as int, (prefix.len() + name.len()) as int) == name
    &&& (p.len() > prefix.len() + name.len() ==> p[(prefix.len() + name.len()) as int] == '/')
}

/// Two separator-free nonempty names that the same path lies under are
/// the same name: the component after `prefix` determines it.
proof fn lemma_path_in_one_entry(p: Seq<char>, prefix: Seq<char>, n1: Seq<char>, n2: Seq<char>)
    requires
        path_in_entry(p, prefix, n1),
        path_in_entry(p, prefix, n2),
        n1.len() > 0 && !n1.contains('/'),
        n2.len() > 0 && !n2.contains('/'),
    ensures
        n1 == n2,
{
    if n1.len() == n2.len() {
        assert(n1 =~= n2);
    } else if n1.len() < n2.len() {
        assert(p[(prefix.len() + n1.len()) as int] == '/');
        assert(n2[n1.len() as int] == p.subrange(prefix.len() as int, (prefix.len() + n2.len()) as int)[n1.len() as int]);
        assert(n2.contains('/'));
    } else {
        assert(p[(prefix.len() + n2.len()) as int] == '/');
        assert(n1[n2.len() as int] == p.subrange(prefix.len() as int, (prefix.len() + n1.len()) as int)[n2.len() as int]);
        assert(n1.contains('/'));
    }
}

/// A path counted below an entry lies under that entry's name.
proof fn lemma_doc_path_shape(prefix: Seq<char>, e: Entry, p: Seq<char>)
    requires
        entry_wf(e),
        entry_doc_count(prefix, e, p) > 0,
    ensures
        path_in_entry(p, prefix, entry_name(e)),
    decreases e,
{
    match e {
        Entry::File { name } => {
            assert(p == prefix + name@);
            assert(p.subrange(0, prefix.len() as int) =~= prefix);
            assert(p.subrange(prefix.len() as int, (prefix.len() + name@.len()) as int) =~= name@);
        },
        Entry::Dir { name, entries } => {
            let long = prefix + name@ + seq!['/'];
            lemma_docs_lie_under_prefix(long, entries@, p);
            assert(p.subrange(0, long.len() as int) == long);
            assert(p.subrange(0, prefix.len() as int) =~= prefix);
            assert(p.subrange(prefix.len() as int, (prefix.len() + name@.len()) as int) =~= name@) by {
                assert forall|k: int| 0 <= k < name@.len() implies p[prefix.len() + k]
                    == name@[k] by {
                    assert(p[prefix.len() + k] == p.subrange(0, long.len() as int)[prefix.len()
                        + k]);
                }
            }
            assert(p[(prefix.len() + name@.len()) as int] == p.subrange(0, long.len() as int)[(
            prefix.len() + name@.len()) as int]);
        },
    }
}

/// A path counted below a list of siblings starts with the prefix the
/// siblings are seen under, and is strictly longer than it.
proof fn lemma_docs_lie_under_prefix(prefix: Seq<char>, es: Seq<Entry>, p: Seq<char>)
    requires
        entries_wf(es),
        entries_doc_count(prefix, es, p) > 0,
    ensures
        p.len() > prefix.len(),
        p.subrange(0, prefix.len() as int) == prefix,
    decreases es,
{
    assert(es.len() > 0);
    if entry_doc_count(prefix, es[0], p) > 0 {
        lemma_doc_path_shape(prefix, es[0], p);
        let name = entry_name(es[0]);
        assert(entry_wf(es[0]));
        assert(name.len() > 0);
    } else {
        assert(entries_wf(es.drop_first())) by {
            assert(forall|i: int|
                0 <= i < es.drop_first().len() ==> #[trigger] es.drop_first()[i] == es[i + 1]);
        }
        lemma_docs_lie_under_prefix(prefix, es.drop_first(), p);
    }
}

/// Some sibling accounts for a positive count.
proof fn lemma_count_from_some_sibling(prefix: Seq<char>, es: Seq<Entry>, p: Seq<char>)
    requires
        entries_doc_count(prefix, es, p) > 0,
    ensures
        exists|k: int| 0 <= k < es.len() && entry_doc_count(prefix, #[trigger] es[k], p) > 0,
    decreases es,
{
    assert(es.len() > 0);
    if entry_doc_count(prefix, es[0], p) > 0 {
    } else {
        lemma_count_from_some_sibling(prefix, es.drop_first(), p);
        let k = choose|k: int|
            0 <= k < es.drop_first().len() && entry_doc_count(
                prefix,
                #[trigger] es.drop_first()[k],
                p,
            ) > 0;
        assert(es.drop_first()[k] == es[k + 1]);
        assert(entry_doc_count(prefix, es[k + 1], p) > 0);
    }
}

/// Below one well-formed entry, at most one file bears any given path.
proof fn lemma_entry_doc_count_at_most_one(prefix: Seq<char>, e: Entry, p: Seq<char>)
    requires
        entry_wf(e),
    ensures
        entry_doc_count(prefix, e, p) <= 1,
    decreases e,
{
    match e {
        Entry::File { name } => {
        },
        Entry::Dir { name, entries } => {
            lemma_doc_count_at_most_one(prefix + name@ + seq!['/'], entries@, p);
        },
    }
}

/// Below well-formed siblings, at most one file bears any given path:
/// distinct sibling names keep their subtrees' paths apart.
pub proof fn lemma_doc_count_at_most_one(prefix: Seq<char>, es: Seq<Entry>, p: Seq<char>)
    requires
        entries_wf(es),
    ensures
        entries_doc_count(prefix, es, p) <= 1,
    decreases es,
{
    if es.len() > 0 {
        lemma_entry_doc_count_at_most_one(prefix, es[0], p);
        assert(entries_wf(es.drop_first())) by {
            assert(forall|i: int|
                0 <= i < es.drop_first().len() ==> #[trigger] es.drop_first()[i] == es[i + 1]);
        }
        lemma_doc_count_at_most_one(prefix, es.drop_first(), p);
        if entry_doc_count(prefix, es[0], p) > 0 && entries_doc_count(
            prefix,
            es.drop_first(),
            p,
        ) > 0 {
            lemma_doc_path_shape(prefix, es[0], p);
            lemma_count_from_some_sibling(prefix, es.drop_first(), p);
            let k = choose|k: int|
                0 <= k < es.drop_first().len() && entry_doc_count(
                    prefix,
                    #[trigger] es.drop_first()[k],
                    p,
                ) > 0;
            assert(es.drop_first()[k] == es[k + 1]);
            lemma_doc_path_shape(prefix, es[k + 1], p);
            lemma_path_in_one_entry(p, prefix, entry_name(es[0]), entry_name(es[k + 1]));
            assert(false);
        }
    }
}

/// The collector never lists a path twice: under a well-formed tree its
/// output is duplicate-free.
pub proof fn lemma_collect_no_duplicates(prefix: Seq<char>, es: Seq<Entry>)
    requires
        entries_wf(es),
    ensures
        collect_entries(prefix, es).no_duplicates(),
{
    let s = collect_entries(prefix, es);
    assert forall|x: Seq<char>| s.to_multiset().contains(x) implies s.to_multiset().count(x)
        == 1 by {
        lemma_one_path_per_doc(prefix, es, x);
        lemma_doc_count_at_most_one(prefix, es, x);
    }
    s.lemma_multiset_has_no_duplicates_conv();
}

/// Scanning an unchanged tree twice collects the same paths: the result
/// is a function of the tree alone.
pub proof fn lemma_collect_deterministic(
    es: Seq<Entry>,
    r1: Seq<Seq<char>>,
    r2: Seq<Seq<char>>,
)
    requires
        r1 == spec_collect(es),
        r2 == spec_collect(es),
    ensures
        r1 == r2,
{
}

/// Walks the entries depth first and gathers the paths, under `prefix`,
/// of the files whose name carries a documentation extension.
pub fn collect_doc_paths(prefix: &str, entries: &Vec<Entry>) -> (r: Vec<String>)
    ensures
        r@.map_values(|p: String| p@) == collect_entries(prefix@, entries@),
    decreases entries@,
{
    let mut r: Vec<String> = Vec::new();
    let mut i: usize = 0;
    proof {
        assert(entries@.skip(0) =~= entries@);
        assert(r@.map_values(|p: String| p@) + collect_entries(prefix@, entries@) =~= collect_entries(
            prefix@,
            entries@,
        ));
    }
    while i < entries.len()
        invariant
            i <= entries.len(),
            r@.map_values(|p: String| p@) + collect_entries(prefix@, entries@.skip(i as int))
                == collect_entries(prefix@, entries@),
        decreases entries@.len() - i,
    {
        let ghost views_before = r@.map_values(|p: String| p@);
        proof {
            assert(entries@.skip(i as int)[0] == entries@[i as int]);
            assert(entries@.skip(i as int).drop_first() =~= entries@.skip(i + 1));
        }
        match &entries[i] {
            Entry::File { name } => {
                if is_doc_name(name.as_str()) {
                    let mut p = prefix.to_owned();
                    p.append(name.as_str());
                    r.push(p);
                    proof {
                        assert(r@.map_values(|p: String| p@) =~= views_before.push(
                            prefix@ + name@,
                        ));
                        assert(views_before.push(prefix@ + name@) =~= views_before + seq![
                            prefix@ + name@,
                        ]);
                    }
                }
            },
            Entry::Dir { name, entries: sub } => {
                let mut p = prefix.to_owned();
                p.append(name.as_str());
                p.append("/");
                proof {
                    reveal_strlit("/");
                    assert(p@ =~= prefix@ + name@ + seq!['/']);
                    assert(decreases_to!(entries@ => entries@[i as int]));
                }
                let mut subpaths = collect_doc_paths(p.as_str(), sub);
                r.append(&mut subpaths);
                proof {
                    assert(r@.map_values(|p: String| p@) =~= views_before + collect_entry(
                        prefix@,
                        entries@[i as int],
                    ));
                }
            },
        }
        proof {
            assert(views_before + (collect_entry(prefix@, entries@[i as int]) + collect_entries(
                prefix@,
                entries@.skip(i + 1),
            )) =~= (views_before + collect_entry(prefix@, entries@[i as int])) + collect_entries(
                prefix@,
                entries@.skip(i + 1),
            ));
        }
        i += 1;
    }
    proof {
        assert(entries@.skip(entries@.len() as int) =~= Seq::<Entry>::empty());
        assert(r@.map_values(|p: String| p@) + Seq::<Seq<char>>::empty() =~= r@.map_values(
            |p: String| p@,
        ));
    }
    r
}

/// Collects the documentation paths of a whole tree, relative to the
/// scan root.
pub fn collect_docs(entries: &Vec<Entry>) -> (r: Vec<String>)
    ensures
        r@.map_values(|p: String| p@) == spec_collect(entries@),
{
    proof {
        reveal_strlit("");
        assert(""@ =~= Seq::<char>::empty());
    }
    collect_doc_paths("", entries)
}

} // verus!
