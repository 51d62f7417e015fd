//! File-name extensions and extension filters.
//!
//! A file name carries an extension when it contains a `.` that is preceded
//! by at least one character; the extension is everything after the last
//! such `.`. A name without a dot, or whose only dot is its first character
//! (a hidden file), has no extension. Matching against a filter set is an
//! exact, case-sensitive comparison of the extension.

use vstd::prelude::*;

verus! {

/// Index of the last `.` in `name`, if any.
pub open spec fn last_dot(name: Seq<char>) -> Option<int>
    decreases name.len(),
{
    if name.len() == 0 {
        None
    } else if name[name.len() - 1] == '.' {
        Some(name.len() - 1)
    } else {
        last_dot(name.drop_last())
    }
}

/// The extension of `name`: the characters after the last `.`, provided
/// that dot has at least one character before it. `None` otherwise.
pub open spec fn ext_of(name: Seq<char>) -> Option<Seq<char>> {
    match last_dot(name) {
        Some(i) => if i >= 1 {
            Some(name.subrange(i + 1, name.len() as int))
        } else {
            None
        },
        None => None,
    }
}

/// `name` has an extension and it occurs, verbatim, in the filter `exts`.
pub open spec fn matches_filter(name: Seq<char>, exts: Seq<Seq<char>>) -> bool {
    match ext_of(name) {
        Some(e) => exts.contains(e),
        None => false,
    }
}

/// Computes `ext_of(name@)`.
pub fn extension_of(name: &str) -> (r: Option<String>)
    ensures
        match r {
            Some(e) => ext_of(name@) == Some(e@),
            None => ext_of(name@) is None,
        },
{
    let len = name.unicode_len();
    let mut i = len;
    proof {
        assert(name@.subrange(0, len as int) =~= name@);
    }
    while i > 0
        invariant
            i <= len,
            len == name@.len(),
            last_dot(name@) == last_dot(name@.subrange(0, i as int)),
        decreases i,
    {
        let c = name.get_char(i - 1);
        if c == '.' {
            proof {
                assert(name@.subrange(0, i as int)[i - 1] == name@[i - 1]);
            }
            if i >= 2 {
                let e = name.substring_char(i, len);
                return Some(e.to_owned());
            } else {
                return None;
            }
        }
        proof {
            assert(name@.subrange(0, i as int).drop_last() =~= name@.subrange(0, i - 1));
            assert(name@.subrange(0, i as int)[i - 1] == name@[i - 1]);
        }
        i = i - 1;
    }
    proof {
        assert(name@.subrange(0, 0).len() == 0);
    }
    None
}

/// Computes `matches_filter(name@, exts.deep_view())`.
pub fn name_matches(name: &str, exts: &Vec<String>) -> (r: bool)
    ensures
        r == matches_filter(name@, exts.deep_view()),
{
    let ext = extension_of(name);
    match ext {
        None => false,
        Some(e) => {
            let mut j: usize = 0;
            while j < exts.len()
                invariant
                    j <= exts.len(),
                    ext_of(name@) == Some(e@),
                    forall|k: int| 0 <= k < j ==> exts.deep_view()[k] != e@,
                decreases exts.len() - j,
            {
                proof {
                    assert(exts.deep_view()[j as int] == exts@[j as int]@);
                }
                if e == exts[j] {
                    return true;
                }
                j = j + 1;
            }
            assert(forall|k: int| 0 <= k < exts.deep_view().len() ==> exts.deep_view()[k] != e@);
            false
        },
    }
}

} // verus!
