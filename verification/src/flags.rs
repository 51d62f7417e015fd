//! The compiler flag set: a fixed freestanding cross-compilation prefix,
//! then a debug define for debug builds, then a revision define when a
//! source revision is supplied.
//!
//! Flags are append-only and never reordered: in the flag-parsing semantics
//! of most compilers, later flags override earlier ones, so the order here
//! is part of the meaning. Building the set is pure: the same profile and
//! revision always yield the same sequence.

use vstd::prelude::*;

verus! {

/// The build profile; anything that is not a debug build is a release build.
#[derive(Clone, Copy, PartialEq, Eq, Structural, Debug)]
pub enum Profile {
    Debug,
    Release,
}

/// The fixed prefix every stage gets: freestanding execution model, no
/// standard library, no exceptions, no run-time type information, the
/// target ABI and code model, no static-destructor registration, and the
/// project's language standard.
pub open spec fn fixed_flags() -> Seq<Seq<char>> {
    seq![
        "-ffreestanding"@,
        "-fmodules-ts"@,
        "-nostdlib"@,
        "-fno-exceptions"@,
        "-fno-rtti"@,
        "-mabi=lp64d"@,
        "-mcmodel=medany"@,
        "-fno-use-cxa-atexit"@,
        "-std=c++20"@,
    ]
}

/// The preprocessor define a debug build appends.
pub open spec fn debug_define() -> Seq<char> {
    "-DDEBUG"@
}

/// The preprocessor define that carries the source revision `rev`.
pub open spec fn revision_define(rev: Seq<char>) -> Seq<char> {
    "-DG_HASH="@ + rev
}

/// The whole flag set for one compilation: the fixed prefix, the debug
/// define for a debug profile, and the revision define when a revision is
/// supplied, in that order.
pub open spec fn flag_list(profile: Profile, revision: Option<Seq<char>>) -> Seq<Seq<char>> {
    fixed_flags()
        + (if profile is Debug {
            seq![debug_define()]
        } else {
            Seq::empty()
        })
        + (match revision {
            Some(rev) => seq![revision_define(rev)],
            None => Seq::empty(),
        })
}

/// Builds `flag_list(profile, revision)` as an executable vector. Calling
/// it twice with equal inputs yields equal flag sequences, since the result
/// is a function of the inputs alone.
pub fn build_flags(profile: Profile, revision: Option<&String>) -> (r: Vec<String>)
    ensures
        revision matches Some(rev) ==> r.deep_view() == flag_list(profile, Some(rev@)),
        revision is None ==> r.deep_view() == flag_list(profile, None),
{
    let mut r: Vec<String> = Vec::new();
    r.push("-ffreestanding".to_owned());
    r.push("-fmodules-ts".to_owned());
    r.push("-nostdlib".to_owned());
    r.push("-fno-exceptions".to_owned());
    r.push("-fno-rtti".to_owned());
    r.push("-mabi=lp64d".to_owned());
    r.push("-mcmodel=medany".to_owned());
    r.push("-fno-use-cxa-atexit".to_owned());
    r.push("-std=c++20".to_owned());
    match profile {
        Profile::Debug => {
            r.push("-DDEBUG".to_owned());
        },
        Profile::Release => {},
    }
    match revision {
        Some(rev) => {
            let mut define = "-DG_HASH=".to_owned();
            define.append(rev.as_str());
            r.push(define);
        },
        None => {},
    }
    proof {
        if revision is Some {
            assert(r.deep_view() =~= flag_list(profile, Some(revision.unwrap()@)));
        } else {
            assert(r.deep_view() =~= flag_list(profile, None));
        }
    }
    r
}

/// Flag idempotence: `build_flags` pins its result to `flag_list`, a
/// function of the profile and revision alone, so any two flag sets built
/// from equal inputs are identical sequences.
pub proof fn lemma_flags_idempotent(
    profile: Profile,
    revision: Option<Seq<char>>,
    first: Seq<Seq<char>>,
    second: Seq<Seq<char>>,
)
    requires
        first == flag_list(profile, revision),
        second == flag_list(profile, revision),
    ensures
        first == second,
{
}

/// A release build without a revision gets the fixed prefix alone: neither
/// the debug define nor any revision define occurs in its flag set.
pub proof fn lemma_release_flags_plain()
    ensures
        flag_list(Profile::Release, None) == fixed_flags(),
        !fixed_flags().contains(debug_define()),
        forall|rev: Seq<char>| !fixed_flags().contains(revision_define(rev)),
{
    assert(flag_list(Profile::Release, None) =~= fixed_flags());
    reveal_strlit("-ffreestanding");
    reveal_strlit("-fmodules-ts");
    reveal_strlit("-nostdlib");
    reveal_strlit("-fno-exceptions");
    reveal_strlit("-fno-rtti");
    reveal_strlit("-mabi=lp64d");
    reveal_strlit("-mcmodel=medany");
    reveal_strlit("-fno-use-cxa-atexit");
    reveal_strlit("-std=c++20");
    reveal_strlit("-DDEBUG");
    reveal_strlit("-DG_HASH=");
    assert(forall|i: int| 0 <= i < fixed_flags().len() ==> #[trigger] fixed_flags()[i][1] != 'D');
    assert(debug_define()[1] == 'D');
    assert forall|rev: Seq<char>| !fixed_flags().contains(revision_define(rev)) by {
        assert(revision_define(rev)[1] == "-DG_HASH="@[1]);
        assert(revision_define(rev)[1] == 'D');
    }
}

} // verus!
