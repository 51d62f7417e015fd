//! In-memory model of the directory tree that discovery walks.
//!
//! The surrounding program snapshots the real tree into `FsNode` values and
//! hands them to the library. A directory entry that exists but cannot be
//! read at all is recorded as `Unreadable`; an entry whose type is neither
//! file nor directory (a broken symlink, a device node) is `Other`.

use vstd::prelude::*;
use crate::paths::matches_filter;

verus! {

/// One entry of a directory listing.
pub enum FsNode {
    /// A regular file.
    File { name: String },
    /// A subdirectory together with its own listing.
    Dir { name: String, entries: Vec<FsNode> },
    /// An entry whose type is neither file nor directory; skipped.
    Other { name: String },
    /// An entry that could not be read or classified; fatal when met.
    Unreadable,
}

/// A path as a sequence of name segments, root first.
pub type PathModel = Seq<Seq<char>>;

/// Traversing `n` (as one entry of a listing being read) meets no
/// unreadable entry. The entries of a subdirectory are read only when
/// `recurse` is set.
pub open spec fn node_readable(n: FsNode, recurse: bool) -> bool
    decreases n,
{
    match n {
        FsNode::Unreadable => false,
        FsNode::Dir { name, entries } => !recurse || entries_readable(entries@, recurse),
        _ => true,
    }
}

/// Traversing the listing `es` meets no unreadable entry.
pub open spec fn entries_readable(es: Seq<FsNode>, recurse: bool) -> bool
    decreases es,
{
    if es.len() == 0 {
        true
    } else {
        node_readable(es[0], recurse) && entries_readable(es.subrange(1, es.len() as int), recurse)
    }
}

/// The paths of the files that traversing `n` contributes: a matching file
/// contributes its own path; a subdirectory contributes its subtree's files
/// when `recurse` is set and nothing otherwise.
pub open spec fn node_files(n: FsNode, exts: Seq<Seq<char>>, recurse: bool, prefix: PathModel) -> Seq<PathModel>
    decreases n,
{
    match n {
        FsNode::File { name } => if matches_filter(name@, exts) {
            seq![prefix.push(name@)]
        } else {
            Seq::empty()
        },
        FsNode::Dir { name, entries } => if recurse {
            entries_files(entries@, exts, recurse, prefix.push(name@))
        } else {
            Seq::empty()
        },
        _ => Seq::empty(),
    }
}

/// The paths of the files that traversing the listing `es` yields, in
/// listing order, each under the directory path `prefix`.
pub open spec fn entries_files(es: Seq<FsNode>, exts: Seq<Seq<char>>, recurse: bool, prefix: PathModel) -> Seq<PathModel>
    decreases es,
{
    if es.len() == 0 {
        Seq::empty()
    } else {
        node_files(es[0], exts, recurse, prefix)
            + entries_files(es.subrange(1, es.len() as int), exts, recurse, prefix)
    }
}

/// A file with the relative path `rel` (segments below the listing's own
/// directory) lies under the entry `n`.
pub open spec fn node_has_file(n: FsNode, rel: Seq<Seq<char>>) -> bool
    decreases n,
{
    match n {
        FsNode::File { name } => rel.len() == 1 && rel[0] == name@,
        FsNode::Dir { name, entries } => rel.len() >= 1 && rel[0] == name@
            && listing_has_file(entries@, rel.subrange(1, rel.len() as int)),
        _ => false,
    }
}

/// A file with the relative path `rel` lies under some entry of `es`.
pub open spec fn listing_has_file(es: Seq<FsNode>, rel: Seq<Seq<char>>) -> bool
    decreases es,
{
    if es.len() == 0 {
        false
    } else {
        node_has_file(es[0], rel) || listing_has_file(es.subrange(1, es.len() as int), rel)
    }
}

/// `p` is `prefix` followed by the relative path of a file under `n` whose
/// name matches the filter.
pub open spec fn found_under_node(n: FsNode, exts: Seq<Seq<char>>, prefix: PathModel, p: PathModel) -> bool {
    exists|rel: Seq<Seq<char>>|
        p == prefix + rel && #[trigger] node_has_file(n, rel) && matches_filter(rel.last(), exts)
}

/// `p` is `prefix` followed by the relative path of a file under some entry
/// of `es` whose name matches the filter.
pub open spec fn found_under_listing(es: Seq<FsNode>, exts: Seq<Seq<char>>, prefix: PathModel, p: PathModel) -> bool {
    exists|rel: Seq<Seq<char>>|
        p == prefix + rel && #[trigger] listing_has_file(es, rel) && matches_filter(rel.last(), exts)
}

/// A relative file path has at least one segment: the file's own name.
proof fn lemma_listing_has_file_len(es: Seq<FsNode>, rel: Seq<Seq<char>>)
    requires
        listing_has_file(es, rel),
    ensures
        rel.len() >= 1,
    decreases es.len(),
{
    if !node_has_file(es[0], rel) {
        lemma_listing_has_file_len(es.subrange(1, es.len() as int), rel);
    }
}

/// Membership in a concatenation is membership in either part.
proof fn lemma_concat_contains<A>(a: Seq<A>, b: Seq<A>, x: A)
    ensures
        (a + b).contains(x) <==> a.contains(x) || b.contains(x),
{
    if a.contains(x) {
        let i = choose|i: int| 0 <= i < a.len() && a[i] == x;
        assert((a + b)[i] == x);
    }
    if b.contains(x) {
        let i = choose|i: int| 0 <= i < b.len() && b[i] == x;
        assert((a + b)[a.len() + i] == x);
    }
    if (a + b).contains(x) {
        let i = choose|i: int| 0 <= i < (a + b).len() && (a + b)[i] == x;
        if i < a.len() {
            assert(a[i] == x);
        } else {
            assert(b[i - a.len()] == x);
        }
    }
}

/// Discovery completeness, per entry: with recursion on, the walk of `n`
/// yields `p` exactly when `p` is, under `prefix`, the path of a file below
/// `n` whose extension matches.
pub proof fn lemma_node_files_complete(n: FsNode, exts: Seq<Seq<char>>, prefix: PathModel)
    ensures
        forall|p: PathModel| #[trigger]
            node_files(n, exts, true, prefix).contains(p) <==> found_under_node(
                n,
                exts,
                prefix,
                p,
            ),
    decreases n,
{
    let files = node_files(n, exts, true, prefix);
    match n {
        FsNode::File { name } => {
            assert forall|p: PathModel| #[trigger] files.contains(p) implies found_under_node(
                n,
                exts,
                prefix,
                p,
            ) by {
                let rel = seq![name@];
                assert(p == prefix.push(name@));
                assert(prefix + rel =~= prefix.push(name@));
                assert(rel.last() == name@);
                assert(node_has_file(n, rel));
            }
            assert forall|p: PathModel| found_under_node(n, exts, prefix, p) implies #[trigger]
            files.contains(p) by {
                let rel = choose|rel: Seq<Seq<char>>|
                    p == prefix + rel && #[trigger] node_has_file(n, rel) && matches_filter(
                        rel.last(),
                        exts,
                    );
                assert(rel =~= seq![name@]);
                assert(rel.last() == name@);
                assert(p =~= prefix.push(name@));
                assert(files[0] == p);
            }
        },
        FsNode::Dir { name, entries } => {
            let sub_prefix = prefix.push(name@);
            lemma_listing_files_complete(entries@, exts, sub_prefix);
            assert forall|p: PathModel| #[trigger] files.contains(p) implies found_under_node(
                n,
                exts,
                prefix,
                p,
            ) by {
                assert(entries_files(entries@, exts, true, sub_prefix).contains(p));
                assert(found_under_listing(entries@, exts, sub_prefix, p));
                let rel0 = choose|rel0: Seq<Seq<char>>|
                    p == sub_prefix + rel0 && #[trigger] listing_has_file(entries@, rel0)
                        && matches_filter(rel0.last(), exts);
                lemma_listing_has_file_len(entries@, rel0);
                let rel = seq![name@] + rel0;
                assert(rel[0] == name@);
                assert(rel.subrange(1, rel.len() as int) =~= rel0);
                assert(node_has_file(n, rel));
                assert(rel.last() == rel0.last());
                assert(p =~= prefix + rel);
            }
            assert forall|p: PathModel| found_under_node(n, exts, prefix, p) implies #[trigger]
            files.contains(p) by {
                let rel = choose|rel: Seq<Seq<char>>|
                    p == prefix + rel && #[trigger] node_has_file(n, rel) && matches_filter(
                        rel.last(),
                        exts,
                    );
                let rel0 = rel.subrange(1, rel.len() as int);
                assert(listing_has_file(entries@, rel0));
                lemma_listing_has_file_len(entries@, rel0);
                assert(rel.last() == rel0.last());
                assert(p =~= sub_prefix + rel0);
                assert(found_under_listing(entries@, exts, sub_prefix, p));
                assert(entries_files(entries@, exts, true, sub_prefix).contains(p));
            }
        },
        _ => {
            assert forall|p: PathModel| !found_under_node(n, exts, prefix, p) by {
                assert(forall|rel: Seq<Seq<char>>| !(#[trigger] node_has_file(n, rel)));
            }
        },
    }
}

/// Discovery completeness, per listing: with recursion on, the walk of `es`
/// yields `p` exactly when `p` is, under `prefix`, the path of a file below
/// some entry of `es` whose extension matches.
pub proof fn lemma_listing_files_complete(es: Seq<FsNode>, exts: Seq<Seq<char>>, prefix: PathModel)
    ensures
        forall|p: PathModel| #[trigger]
            entries_files(es, exts, true, prefix).contains(p) <==> found_under_listing(
                es,
                exts,
                prefix,
                p,
            ),
    decreases es,
{
    let files = entries_files(es, exts, true, prefix);
    if es.len() == 0 {
        assert forall|p: PathModel| !found_under_listing(es, exts, prefix, p) by {
            assert(forall|rel: Seq<Seq<char>>| !(#[trigger] listing_has_file(es, rel)));
        }
    } else {
        let rest = es.subrange(1, es.len() as int);
        lemma_node_files_complete(es[0], exts, prefix);
        lemma_listing_files_complete(rest, exts, prefix);
        assert forall|p: PathModel| #[trigger] files.contains(p) implies found_under_listing(
            es,
            exts,
            prefix,
            p,
        ) by {
            lemma_concat_contains(
                node_files(es[0], exts, true, prefix),
                entries_files(rest, exts, true, prefix),
                p,
            );
            if found_under_node(es[0], exts, prefix, p) {
                let rel = choose|rel: Seq<Seq<char>>|
                    p == prefix + rel && #[trigger] node_has_file(es[0], rel) && matches_filter(
                        rel.last(),
                        exts,
                    );
                assert(listing_has_file(es, rel));
            } else {
                assert(found_under_listing(rest, exts, prefix, p));
                let rel = choose|rel: Seq<Seq<char>>|
                    p == prefix + rel && #[trigger] listing_has_file(rest, rel) && matches_filter(
                        rel.last(),
                        exts,
                    );
                assert(listing_has_file(es, rel));
            }
        }
        assert forall|p: PathModel| found_under_listing(es, exts, prefix, p) implies #[trigger]
        files.contains(p) by {
            let rel = choose|rel: Seq<Seq<char>>|
                p == prefix + rel && #[trigger] listing_has_file(es, rel) && matches_filter(
                    rel.last(),
                    exts,
                );
            lemma_concat_contains(
                node_files(es[0], exts, true, prefix),
                entries_files(rest, exts, true, prefix),
                p,
            );
            if node_has_file(es[0], rel) {
                assert(found_under_node(es[0], exts, prefix, p));
            } else {
                assert(listing_has_file(rest, rel));
                assert(found_under_listing(rest, exts, prefix, p));
            }
        }
    }
}

/// The name under which an entry appears in its directory, if it has one.
pub open spec fn node_name(n: FsNode) -> Option<Seq<char>> {
    match n {
        FsNode::File { name } => Some(name@),
        FsNode::Dir { name, .. } => Some(name@),
        FsNode::Other { name } => Some(name@),
        FsNode::Unreadable => None,
    }
}

/// Below `n`, sibling names never repeat (true of any real directory tree).
pub open spec fn node_names_unique(n: FsNode) -> bool
    decreases n,
{
    match n {
        FsNode::Dir { entries, .. } => listing_names_unique(entries@),
        _ => true,
    }
}

/// Within `es` the named entries carry distinct names, and so do the
/// entries of every directory below.
pub open spec fn listing_names_unique(es: Seq<FsNode>) -> bool
    decreases es,
{
    if es.len() == 0 {
        true
    } else {
        &&& node_names_unique(es[0])
        &&& (forall|j: int|
            1 <= j < es.len() && node_name(es[0]) is Some ==> node_name(es[0]) != node_name(
                #[trigger] es[j],
            ))
        &&& listing_names_unique(es.subrange(1, es.len() as int))
    }
}

/// Every path the walk of `n` yields extends `prefix` by at least one
/// segment, the first of them `n`'s own name.
proof fn lemma_node_files_shape(n: FsNode, exts: Seq<Seq<char>>, recurse: bool, prefix: PathModel)
    ensures
        forall|p: PathModel| #[trigger]
            node_files(n, exts, recurse, prefix).contains(p) ==> p.len() > prefix.len()
                && p.subrange(0, prefix.len() as int) == prefix && Some(p[prefix.len() as int])
                == node_name(n),
    decreases n,
{
    let plen = prefix.len() as int;
    match n {
        FsNode::File { name } => {
            assert forall|p: PathModel| #[trigger]
                node_files(n, exts, recurse, prefix).contains(p) implies p.len() > prefix.len()
                && p.subrange(0, plen) == prefix && Some(p[plen]) == node_name(n) by {
                assert(p == prefix.push(name@));
                assert(p.subrange(0, plen) =~= prefix);
            }
        },
        FsNode::Dir { name, entries } => {
            if recurse {
                let sub_prefix = prefix.push(name@);
                lemma_listing_files_shape(entries@, exts, recurse, sub_prefix);
                assert forall|p: PathModel| #[trigger]
                    node_files(n, exts, recurse, prefix).contains(p) implies p.len()
                    > prefix.len() && p.subrange(0, plen) == prefix && Some(p[plen]) == node_name(
                    n,
                ) by {
                    assert(entries_files(entries@, exts, recurse, sub_prefix).contains(p));
                    assert(p.subrange(0, plen + 1) == sub_prefix);
                    assert(p.subrange(0, plen) =~= p.subrange(0, plen + 1).subrange(0, plen));
                    assert(sub_prefix.subrange(0, plen) =~= prefix);
                    assert(p[plen] == p.subrange(0, plen + 1)[plen]);
                }
            }
        },
        _ => {},
    }
}

/// Every path the walk of `es` yields extends `prefix`, its next segment
/// the name of some entry of `es`.
proof fn lemma_listing_files_shape(
    es: Seq<FsNode>,
    exts: Seq<Seq<char>>,
    recurse: bool,
    prefix: PathModel,
)
    ensures
        forall|p: PathModel| #[trigger]
            entries_files(es, exts, recurse, prefix).contains(p) ==> p.len() > prefix.len()
                && p.subrange(0, prefix.len() as int) == prefix && exists|i: int|
                0 <= i < es.len() && Some(p[prefix.len() as int]) == node_name(#[trigger] es[i]),
    decreases es,
{
    let plen = prefix.len() as int;
    if es.len() > 0 {
        let rest = es.subrange(1, es.len() as int);
        lemma_node_files_shape(es[0], exts, recurse, prefix);
        lemma_listing_files_shape(rest, exts, recurse, prefix);
        assert forall|p: PathModel| #[trigger]
            entries_files(es, exts, recurse, prefix).contains(p) implies p.len() > prefix.len()
            && p.subrange(0, plen) == prefix && exists|i: int|
            0 <= i < es.len() && Some(p[plen]) == node_name(#[trigger] es[i]) by {
            lemma_concat_contains(
                node_files(es[0], exts, recurse, prefix),
                entries_files(rest, exts, recurse, prefix),
                p,
            );
            if node_files(es[0], exts, recurse, prefix).contains(p) {
                assert(Some(p[plen]) == node_name(es[0]));
            } else {
                assert(entries_files(rest, exts, recurse, prefix).contains(p));
                let i = choose|i: int|
                    0 <= i < rest.len() && Some(p[plen]) == node_name(#[trigger] rest[i]);
                assert(es[i + 1] == rest[i]);
                assert(Some(p[plen]) == node_name(es[i + 1]));
            }
        }
    }
}

/// A concatenation of duplicate-free sequences with no common element is
/// duplicate-free.
proof fn lemma_concat_no_duplicates<A>(a: Seq<A>, b: Seq<A>)
    requires
        a.no_duplicates(),
        b.no_duplicates(),
        forall|x: A| !((#[trigger] a.contains(x)) && b.contains(x)),
    ensures
        (a + b).no_duplicates(),
{
    let c = a + b;
    assert forall|i: int, j: int| 0 <= i < c.len() && 0 <= j < c.len() && i != j implies c[i]
        != c[j] by {
        if i < a.len() && j < a.len() {
        } else if i >= a.len() && j >= a.len() {
            assert(c[i] == b[i - a.len()]);
            assert(c[j] == b[j - a.len()]);
        } else {
            let ai = if i < a.len() {
                i
            } else {
                j
            };
            let bj = if i < a.len() {
                j
            } else {
                i
            };
            assert(c[ai] == a[ai]);
            assert(c[bj] == b[bj - a.len()]);
            assert(a.contains(a[ai]));
            assert(b.contains(b[bj - a.len()]));
        }
    }
}

/// Discovery uniqueness, per entry: when sibling names never repeat below
/// `n`, the recursive walk of `n` yields each file once.
pub proof fn lemma_node_files_no_duplicates(n: FsNode, exts: Seq<Seq<char>>, prefix: PathModel)
    requires
        node_names_unique(n),
    ensures
        node_files(n, exts, true, prefix).no_duplicates(),
    decreases n,
{
    match n {
        FsNode::Dir { name, entries } => {
            lemma_listing_files_no_duplicates(entries@, exts, prefix.push(name@));
        },
        _ => {},
    }
}

/// Discovery uniqueness, per listing: when sibling names never repeat, the
/// recursive walk of `es` yields each file once.
pub proof fn lemma_listing_files_no_duplicates(es: Seq<FsNode>, exts: Seq<Seq<char>>, prefix: PathModel)
    requires
        listing_names_unique(es),
    ensures
        entries_files(es, exts, true, prefix).no_duplicates(),
    decreases es,
{
    let plen = prefix.len() as int;
    if es.len() > 0 {
        let rest = es.subrange(1, es.len() as int);
        let a = node_files(es[0], exts, true, prefix);
        let b = entries_files(rest, exts, true, prefix);
        lemma_node_files_no_duplicates(es[0], exts, prefix);
        lemma_listing_files_no_duplicates(rest, exts, prefix);
        lemma_node_files_shape(es[0], exts, true, prefix);
        lemma_listing_files_shape(rest, exts, true, prefix);
        assert forall|x: PathModel| !((#[trigger] a.contains(x)) && b.contains(x)) by {
            if a.contains(x) && b.contains(x) {
                assert(Some(x[plen]) == node_name(es[0]));
                let i = choose|i: int|
                    0 <= i < rest.len() && Some(x[plen]) == node_name(#[trigger] rest[i]);
                assert(es[i + 1] == rest[i]);
                assert(node_name(es[0]) != node_name(es[i + 1]));
            }
        }
        lemma_concat_no_duplicates(a, b);
        assert(entries_files(es, exts, true, prefix) == a + b);
    }
}

/// Discovery completeness: with recursion on, the walk of a listing yields
/// exactly the file paths below it whose extension matches — every such
/// file, at whatever depth, and nothing else — and, since sibling names
/// never repeat in a real directory tree, each of them exactly once.
pub proof fn lemma_discovery_complete(es: Seq<FsNode>, exts: Seq<Seq<char>>, prefix: PathModel)
    requires
        listing_names_unique(es),
    ensures
        forall|p: PathModel| #[trigger]
            entries_files(es, exts, true, prefix).contains(p) <==> found_under_listing(
                es,
                exts,
                prefix,
                p,
            ),
        entries_files(es, exts, true, prefix).no_duplicates(),
{
    lemma_listing_files_complete(es, exts, prefix);
    lemma_listing_files_no_duplicates(es, exts, prefix);
}

/// Discovery non-recursion: with recursion off, the walk of `es` yields
/// exactly the matching files directly inside the listed directory — one
/// path segment below `prefix` — whatever any subdirectory holds.
pub proof fn lemma_listing_files_non_recursive(es: Seq<FsNode>, exts: Seq<Seq<char>>, prefix: PathModel)
    ensures
        forall|p: PathModel| #[trigger]
            entries_files(es, exts, false, prefix).contains(p) <==> exists|i: int|
                0 <= i < es.len() && ((#[trigger] es[i]) matches FsNode::File { name }
                    && matches_filter(name@, exts) && p == prefix.push(name@)),
    decreases es,
{
    let files = entries_files(es, exts, false, prefix);
    if es.len() == 0 {
    } else {
        let rest = es.subrange(1, es.len() as int);
        lemma_listing_files_non_recursive(rest, exts, prefix);
        assert(forall|i: int| 0 <= i < rest.len() ==> rest[i] == es[i + 1]);
        assert forall|p: PathModel| #[trigger] files.contains(p) implies exists|i: int|
            0 <= i < es.len() && ((#[trigger] es[i]) matches FsNode::File { name }
                && matches_filter(name@, exts) && p == prefix.push(name@)) by {
            lemma_concat_contains(
                node_files(es[0], exts, false, prefix),
                entries_files(rest, exts, false, prefix),
                p,
            );
            if node_files(es[0], exts, false, prefix).contains(p) {
                assert(es[0] matches FsNode::File { name } && matches_filter(name@, exts)
                    && p == prefix.push(name@));
            } else {
                let i = choose|i: int|
                    0 <= i < rest.len() && ((#[trigger] rest[i]) matches FsNode::File { name }
                        && matches_filter(name@, exts) && p == prefix.push(name@));
                assert(es[i + 1] == rest[i]);
            }
        }
        assert forall|p: PathModel|
            (exists|i: int|
                0 <= i < es.len() && ((#[trigger] es[i]) matches FsNode::File { name }
                    && matches_filter(name@, exts) && p == prefix.push(name@))) implies #[trigger]
        files.contains(p) by {
            let i = choose|i: int|
                0 <= i < es.len() && ((#[trigger] es[i]) matches FsNode::File { name }
                    && matches_filter(name@, exts) && p == prefix.push(name@));
            lemma_concat_contains(
                node_files(es[0], exts, false, prefix),
                entries_files(rest, exts, false, prefix),
                p,
            );
            if i == 0 {
                assert(node_files(es[0], exts, false, prefix)[0] == p);
            } else {
                assert(rest[i - 1] == es[i]);
                assert(entries_files(rest, exts, false, prefix).contains(p));
            }
        }
    }
}

} // verus!
