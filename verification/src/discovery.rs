//! File discovery: walking a (modelled) directory tree and collecting every
//! file whose extension matches a filter set.
//!
//! A missing root directory contributes no files and is not an error; an
//! unreadable entry met while a listing is being traversed aborts discovery,
//! since it points at a corrupted build environment rather than at an
//! acceptable input.

use vstd::prelude::*;
use crate::fs_tree::{FsNode, PathModel, entries_files, entries_readable, node_files, node_readable};
use crate::paths::{ext_of, extension_of, name_matches};

verus! {

/// A discovered compilable unit: its path, root segment first.
pub struct SourceFile {
    pub path: Vec<String>,
}

impl View for SourceFile {
    type V = PathModel;

    open spec fn view(&self) -> PathModel {
        self.path.deep_view()
    }
}

impl DeepView for SourceFile {
    type V = PathModel;

    open spec fn deep_view(&self) -> PathModel {
        self.path.deep_view()
    }
}

impl SourceFile {
    /// The file's inferred extension: that of its final path segment, its
    /// own name.
    pub fn extension(&self) -> (r: Option<String>)
        requires
            self.path@.len() > 0,
        ensures
            match r {
                Some(e) => ext_of(self.path@.last()@) == Some(e@),
                None => ext_of(self.path@.last()@) is None,
            },
    {
        let name = &self.path[self.path.len() - 1];
        extension_of(name.as_str())
    }
}

/// Discovery met an entry that could not be read or classified.
#[derive(Debug)]
pub enum DiscoveryError {
    UnreadableEntry,
}

/// Looks `path` up under the listing `es`: the entries of the directory the
/// path names, or `None` when no such directory exists. Entries that are not
/// directories are passed over; a lookup never reads a listing other than
/// those on its own path.
pub open spec fn resolve_in(es: Seq<FsNode>, path: Seq<Seq<char>>) -> Option<Seq<FsNode>>
    decreases path.len(), es.len(),
{
    if path.len() == 0 {
        Some(es)
    } else if es.len() == 0 {
        None
    } else {
        match es[0] {
            FsNode::Dir { name, entries } => if name@ == path[0] {
                resolve_in(entries@, path.subrange(1, path.len() as int))
            } else {
                resolve_in(es.subrange(1, es.len() as int), path)
            },
            _ => resolve_in(es.subrange(1, es.len() as int), path),
        }
    }
}

/// Copies a path, segment by segment.
pub(crate) fn clone_path(p: &Vec<String>) -> (r: Vec<String>)
    ensures
        r.deep_view() == p.deep_view(),
{
    let mut r: Vec<String> = Vec::new();
    let mut i: usize = 0;
    while i < p.len()
        invariant
            i <= p.len(),
            r@.len() == i,
            forall|k: int| 0 <= k < i ==> r@[k]@ == p@[k]@,
        decreases p.len() - i,
    {
        r.push(p[i].clone());
        i = i + 1;
    }
    proof {
        assert(r.deep_view() =~= p.deep_view());
    }
    r
}

/// Appending one entry to a listing appends that entry's contribution.
proof fn lemma_entries_files_push(
    es: Seq<FsNode>,
    n: FsNode,
    exts: Seq<Seq<char>>,
    recurse: bool,
    prefix: PathModel,
)
    ensures
        entries_files(es.push(n), exts, recurse, prefix)
            == entries_files(es, exts, recurse, prefix) + node_files(n, exts, recurse, prefix),
    decreases es.len(),
{
    let esn = es.push(n);
    assert(esn.len() == es.len() + 1);
    if es.len() == 0 {
        assert(esn[0] == n);
        assert(esn.subrange(1, esn.len() as int) =~= Seq::<FsNode>::empty());
        assert(entries_files(esn, exts, recurse, prefix)
            == node_files(n, exts, recurse, prefix)
                + entries_files(esn.subrange(1, esn.len() as int), exts, recurse, prefix));
        assert(entries_files(esn.subrange(1, esn.len() as int), exts, recurse, prefix)
            =~= Seq::<PathModel>::empty());
        assert(entries_files(es, exts, recurse, prefix) =~= Seq::<PathModel>::empty());
        assert(entries_files(esn, exts, recurse, prefix)
            =~= entries_files(es, exts, recurse, prefix) + node_files(n, exts, recurse, prefix));
    } else {
        assert(esn[0] == es[0]);
        assert(esn.subrange(1, esn.len() as int) =~= es.subrange(1, es.len() as int).push(n));
        lemma_entries_files_push(es.subrange(1, es.len() as int), n, exts, recurse, prefix);
        assert(entries_files(esn, exts, recurse, prefix)
            == node_files(es[0], exts, recurse, prefix)
                + (entries_files(es.subrange(1, es.len() as int), exts, recurse, prefix)
                    + node_files(n, exts, recurse, prefix)));
        assert(entries_files(esn, exts, recurse, prefix)
            =~= entries_files(es, exts, recurse, prefix) + node_files(n, exts, recurse, prefix));
    }
}

/// Appending one entry to a listing leaves it readable exactly when the
/// listing and the entry are.
proof fn lemma_entries_readable_push(es: Seq<FsNode>, n: FsNode, recurse: bool)
    ensures
        entries_readable(es.push(n), recurse)
            == (entries_readable(es, recurse) && node_readable(n, recurse)),
    decreases es.len(),
{
    let esn = es.push(n);
    assert(esn.len() == es.len() + 1);
    if es.len() == 0 {
        assert(esn[0] == n);
        assert(esn.subrange(1, esn.len() as int) =~= Seq::<FsNode>::empty());
        assert(entries_readable(esn.subrange(1, esn.len() as int), recurse));
    } else {
        assert(esn[0] == es[0]);
        assert(esn.subrange(1, esn.len() as int) =~= es.subrange(1, es.len() as int).push(n));
        lemma_entries_readable_push(es.subrange(1, es.len() as int), n, recurse);
    }
}

/// A listing is readable exactly when each of its entries is.
proof fn lemma_entries_readable_pointwise(es: Seq<FsNode>, recurse: bool)
    ensures
        entries_readable(es, recurse)
            <==> (forall|i: int| 0 <= i < es.len() ==> node_readable(#[trigger] es[i], recurse)),
    decreases es.len(),
{
    if es.len() > 0 {
        let rest = es.subrange(1, es.len() as int);
        lemma_entries_readable_pointwise(rest, recurse);
        assert(forall|i: int| 0 <= i < rest.len() ==> rest[i] == es[i + 1]);
        if node_readable(es[0], recurse) && entries_readable(rest, recurse) {
            assert(forall|i: int| 0 < i < es.len() ==> node_readable(#[trigger] es[i], recurse))
                by {
                assert(forall|i: int| 0 < i < es.len() ==> es[i] == rest[i - 1]);
            }
        }
    }
}

/// Walks the listing `es`, collecting every matching file under the
/// directory path `prefix`, in listing order.
fn discover_in(es: &Vec<FsNode>, exts: &Vec<String>, recurse: bool, prefix: &Vec<String>) -> (r: Result<
    Vec<SourceFile>,
    DiscoveryError,
>)
    ensures
        r is Ok <==> entries_readable(es@, recurse),
        r matches Ok(files) ==> files.deep_view()
            == entries_files(es@, exts.deep_view(), recurse, prefix.deep_view()),
    decreases es@,
{
    let ghost exts_dv = exts.deep_view();
    let ghost prefix_dv = prefix.deep_view();
    let mut out: Vec<SourceFile> = Vec::new();
    let mut i: usize = 0;
    proof {
        assert(es@.subrange(0, 0) =~= Seq::<FsNode>::empty());
    }
    while i < es.len()
        invariant
            i <= es.len(),
            exts_dv == exts.deep_view(),
            prefix_dv == prefix.deep_view(),
            entries_readable(es@.subrange(0, i as int), recurse),
            out.deep_view() == entries_files(es@.subrange(0, i as int), exts_dv, recurse, prefix_dv),
        decreases es.len() - i,
    {
        let ghost done = es@.subrange(0, i as int);
        let ghost old_dv = out.deep_view();
        match &es[i] {
            FsNode::File { name } => {
                if name_matches(name.as_str(), exts) {
                    let mut path = clone_path(prefix);
                    path.push(name.clone());
                    proof {
                        assert(path.deep_view() =~= prefix_dv.push(name@));
                    }
                    let sf = SourceFile { path };
                    out.push(sf);
                    proof {
                        assert(out.deep_view() =~= old_dv + node_files(es@[i as int], exts_dv, recurse, prefix_dv));
                    }
                } else {
                    proof {
                        assert(node_files(es@[i as int], exts_dv, recurse, prefix_dv) =~= Seq::<PathModel>::empty());
                        assert(out.deep_view() =~= old_dv + node_files(es@[i as int], exts_dv, recurse, prefix_dv));
                    }
                }
            },
            FsNode::Dir { name, entries } => {
                if recurse {
                    let mut sub_prefix = clone_path(prefix);
                    sub_prefix.push(name.clone());
                    proof {
                        assert(sub_prefix.deep_view() =~= prefix_dv.push(name@));
                    }
                    match discover_in(entries, exts, recurse, &sub_prefix) {
                        Ok(mut sub_files) => {
                            proof {
                                assert(sub_files.deep_view()
                                    == node_files(es@[i as int], exts_dv, recurse, prefix_dv));
                            }
                            let ghost sub_dv = sub_files.deep_view();
                            out.append(&mut sub_files);
                            proof {
                                assert(out.deep_view() =~= old_dv + sub_dv);
                            }
                        },
                        Err(e) => {
                            proof {
                                assert(!node_readable(es@[i as int], recurse));
                                lemma_entries_readable_pointwise(es@, recurse);
                            }
                            return Err(e);
                        },
                    }
                } else {
                    proof {
                        assert(node_files(es@[i as int], exts_dv, recurse, prefix_dv) =~= Seq::<PathModel>::empty());
                        assert(out.deep_view() =~= old_dv + node_files(es@[i as int], exts_dv, recurse, prefix_dv));
                    }
                }
            },
            FsNode::Other { name } => {
                proof {
                    assert(node_files(es@[i as int], exts_dv, recurse, prefix_dv) =~= Seq::<PathModel>::empty());
                    assert(out.deep_view() =~= old_dv + node_files(es@[i as int], exts_dv, recurse, prefix_dv));
                }
            },
            FsNode::Unreadable => {
                proof {
                    assert(!node_readable(es@[i as int], recurse));
                    lemma_entries_readable_pointwise(es@, recurse);
                }
                return Err(DiscoveryError::UnreadableEntry);
            },
        }
        proof {
            assert(es@.subrange(0, i + 1) =~= done.push(es@[i as int]));
            lemma_entries_files_push(done, es@[i as int], exts_dv, recurse, prefix_dv);
            lemma_entries_readable_push(done, es@[i as int], recurse);
        }
        i = i + 1;
    }
    proof {
        assert(es@.subrange(0, es@.len() as int) =~= es@);
    }
    Ok(out)
}

/// Discovers every file under the directory `root` (looked up in the tree
/// `fs`) whose extension occurs in `exts`, walking subdirectories only when
/// `recurse` is set. A `root` that names no directory yields no files; an
/// unreadable entry met during the walk is an error.
pub fn discover(fs: &Vec<FsNode>, root: &Vec<String>, exts: &Vec<String>, recurse: bool) -> (r: Result<
    Vec<SourceFile>,
    DiscoveryError,
>)
    ensures
        match resolve_in(fs@, root.deep_view()) {
            None => r matches Ok(files) && files@.len() == 0,
            Some(es) => {
                &&& r is Ok <==> entries_readable(es, recurse)
                &&& (r matches Ok(files) ==> files.deep_view()
                    == entries_files(es, exts.deep_view(), recurse, root.deep_view()))
            },
        },
{
    proof {
        assert(root.deep_view().subrange(0, root@.len() as int) =~= root.deep_view());
    }
    match resolve_dir(fs, root, 0) {
        None => Ok(Vec::new()),
        Some(es) => discover_in(es, exts, recurse, root),
    }
}

/// Looks up, in the listing `es`, the directory that the path segments
/// `path[k..]` name, as `resolve_in` describes.
fn resolve_dir<'a>(es: &'a Vec<FsNode>, path: &Vec<String>, k: usize) -> (r: Option<&'a Vec<FsNode>>)
    requires
        k <= path@.len(),
    ensures
        match r {
            Some(sub) => resolve_in(es@, path.deep_view().subrange(k as int, path@.len() as int))
                == Some(sub@),
            None => resolve_in(es@, path.deep_view().subrange(k as int, path@.len() as int)) is None,
        },
    decreases path@.len() - k, es@.len(),
{
    let ghost tail = path.deep_view().subrange(k as int, path@.len() as int);
    if k == path.len() {
        proof {
            assert(tail.len() == 0);
        }
        return Some(es);
    }
    proof {
        assert(tail[0] == path.deep_view()[k as int]);
        assert(path.deep_view()[k as int] == path@[k as int]@);
        assert(es@.subrange(0, es@.len() as int) =~= es@);
    }
    let mut j: usize = 0;
    while j < es.len()
        invariant
            j <= es.len(),
            k < path@.len(),
            path@.len() <= usize::MAX,
            tail == path.deep_view().subrange(k as int, path@.len() as int),
            tail[0] == path@[k as int]@,
            resolve_in(es@, tail) == resolve_in(es@.subrange(j as int, es@.len() as int), tail),
        decreases es.len() - j,
    {
        let ghost rest = es@.subrange(j as int, es@.len() as int);
        proof {
            assert(rest[0] == es@[j as int]);
            assert(rest.subrange(1, rest.len() as int)
                =~= es@.subrange(j + 1, es@.len() as int));
        }
        match &es[j] {
            FsNode::Dir { name, entries } => {
                if string_eq(name, &path[k]) {
                    proof {
                        assert(tail.subrange(1, tail.len() as int)
                            =~= path.deep_view().subrange(k + 1, path@.len() as int));
                    }
                    return resolve_dir(entries, path, k + 1);
                }
            },
            _ => {},
        }
        j = j + 1;
    }
    proof {
        assert(es@.subrange(es@.len() as int, es@.len() as int) =~= Seq::<FsNode>::empty());
    }
    None
}

/// Compares two strings character for character.
fn string_eq(a: &String, b: &String) -> (r: bool)
    ensures
        r == (a@ == b@),
{
    a.eq(b)
}

} // verus!
