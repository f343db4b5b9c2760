//! Change detection: the persisted record of content hashes and sticky error
//! flags, and the decisions drawn from it. Hashes are computed and the record
//! stored by the caller; every decision here is a function of the record and
//! the freshly computed hash alone.

use vstd::prelude::*;

verus! {

/// The persisted change-detection record of one project: one source-tree
/// hash per build profile, the build-script and manifest hashes, and the two
/// sticky failure flags.
#[derive(Clone, Debug, PartialEq, Eq)]
pub struct YacUpdate {
    pub debug_hash: String,
    pub release_hash: String,
    pub build_hash: String,
    pub yac_toml_hash: String,
    pub last_src_error: bool,
    pub last_build_error: bool,
}

#[verifier::ext_equal]
pub struct YacUpdateView {
    pub debug_hash: Seq<char>,
    pub release_hash: Seq<char>,
    pub build_hash: Seq<char>,
    pub yac_toml_hash: Seq<char>,
    pub last_src_error: bool,
    pub last_build_error: bool,
}

impl View for YacUpdate {
    type V = YacUpdateView;

    open spec fn view(&self) -> YacUpdateView {
        YacUpdateView {
            debug_hash: self.debug_hash@,
            release_hash: self.release_hash@,
            build_hash: self.build_hash@,
            yac_toml_hash: self.yac_toml_hash@,
            last_src_error: self.last_src_error,
            last_build_error: self.last_build_error,
        }
    }
}

/// The record standing for "no prior state": empty hashes, no failures.
pub open spec fn empty_record() -> YacUpdateView {
    YacUpdateView {
        debug_hash: Seq::empty(),
        release_hash: Seq::empty(),
        build_hash: Seq::empty(),
        yac_toml_hash: Seq::empty(),
        last_src_error: false,
        last_build_error: false,
    }
}

impl Default for YacUpdate {
    /// An absent or unreadable record degrades to this: everything unknown,
    /// nothing sticky.
    fn default() -> (result: Self)
        ensures
            result@ == empty_record(),
    {
        let result = YacUpdate {
            debug_hash: String::new(),
            release_hash: String::new(),
            build_hash: String::new(),
            yac_toml_hash: String::new(),
            last_src_error: false,
            last_build_error: false,
        };
        proof {
            assert(result@ =~= empty_record());
        }
        result
    }
}

/// The stored source-tree hash of the given profile.
pub open spec fn stored_src_hash(u: YacUpdateView, release: bool) -> Seq<char> {
    if release {
        u.release_hash
    } else {
        u.debug_hash
    }
}

/// Whether project sources must be rebuilt: either the previous attempt
/// failed (sticky), or the tree's hash differs from the stored one for the
/// active profile.
pub open spec fn src_stale(u: YacUpdateView, current: Seq<char>, release: bool) -> bool {
    u.last_src_error || stored_src_hash(u, release) != current
}

/// Whether the build script must be recompiled: either its previous compile
/// failed (sticky), or its hash differs from the stored one.
pub open spec fn build_stale(u: YacUpdateView, current: Seq<char>) -> bool {
    u.last_build_error || u.build_hash != current
}

/// Whether the manifest changed since the stored lock was produced.
pub open spec fn manifest_stale(u: YacUpdateView, current: Seq<char>) -> bool {
    u.yac_toml_hash != current
}

/// `u` with the given profile's source hash replaced.
pub open spec fn with_src_hash(u: YacUpdateView, h: Seq<char>, release: bool) -> YacUpdateView {
    if release {
        YacUpdateView { release_hash: h, ..u }
    } else {
        YacUpdateView { debug_hash: h, ..u }
    }
}

/// `u` with the build-script hash replaced.
pub open spec fn with_build_hash(u: YacUpdateView, h: Seq<char>) -> YacUpdateView {
    YacUpdateView { build_hash: h, ..u }
}

/// `u` with the manifest hash replaced.
pub open spec fn with_manifest_hash(u: YacUpdateView, h: Seq<char>) -> YacUpdateView {
    YacUpdateView { yac_toml_hash: h, ..u }
}

/// `u` with the sticky build-script flag raised.
pub open spec fn marked_build_error(u: YacUpdateView) -> YacUpdateView {
    YacUpdateView { last_build_error: true, ..u }
}

/// `u` with the sticky source flag raised.
pub open spec fn marked_src_error(u: YacUpdateView) -> YacUpdateView {
    YacUpdateView { last_src_error: true, ..u }
}

/// `u` with the sticky build-script flag cleared.
pub open spec fn cleared_build_error(u: YacUpdateView) -> YacUpdateView {
    YacUpdateView { last_build_error: false, ..u }
}

/// `u` with the sticky source flag cleared.
pub open spec fn cleared_src_error(u: YacUpdateView) -> YacUpdateView {
    YacUpdateView { last_src_error: false, ..u }
}

impl YacUpdate {
    /// A field-for-field copy.
    pub fn duplicate(&self) -> (result: Self)
        ensures
            result@ == self@,
    {
        let result = YacUpdate {
            debug_hash: self.debug_hash.clone(),
            release_hash: self.release_hash.clone(),
            build_hash: self.build_hash.clone(),
            yac_toml_hash: self.yac_toml_hash.clone(),
            last_src_error: self.last_src_error,
            last_build_error: self.last_build_error,
        };
        proof {
            assert(result@ =~= self@);
        }
        result
    }

    /// Record that compiling the build script just failed; the flag sticks
    /// until a later success clears it.
    pub fn mark_build_error(&self) -> (result: Self)
        ensures
            result@ == marked_build_error(self@),
    {
        let mut result = self.duplicate();
        result.last_build_error = true;
        proof {
            assert(result@ =~= marked_build_error(self@));
        }
        result
    }

    /// Record that compiling the project sources just failed; the flag
    /// sticks until a later success clears it.
    pub fn mark_src_error(&self) -> (result: Self)
        ensures
            result@ == marked_src_error(self@),
    {
        let mut result = self.duplicate();
        result.last_src_error = true;
        proof {
            assert(result@ =~= marked_src_error(self@));
        }
        result
    }

    /// Record that the build script just compiled successfully. Clearing is
    /// explicit: a record that never cleared the flag would force recompiles
    /// forever.
    pub fn clear_build_error(&self) -> (result: Self)
        ensures
            result@ == cleared_build_error(self@),
    {
        let mut result = self.duplicate();
        result.last_build_error = false;
        proof {
            assert(result@ =~= cleared_build_error(self@));
        }
        result
    }

    /// Record that the project sources just built successfully.
    pub fn clear_src_error(&self) -> (result: Self)
        ensures
            result@ == cleared_src_error(self@),
    {
        let mut result = self.duplicate();
        result.last_src_error = false;
        proof {
            assert(result@ =~= cleared_src_error(self@));
        }
        result
    }
}

/// Decides whether the source tree is stale for the given profile, `current`
/// being its freshly computed hash. Returns the decision and, when a changed
/// hash must be persisted, the updated record; a sticky failure decides
/// without storing anything.
pub fn src_files_updated(update: &YacUpdate, current: &String, release: bool) -> (result: (
    bool,
    Option<YacUpdate>,
))
    ensures
        result.0 == src_stale(update@, current@, release),
        result.1 matches Some(stored) ==> stored@ == with_src_hash(update@, current@, release),
        result.1 is Some <==> !update@.last_src_error && stored_src_hash(update@, release)
            != current@,
{
    if update.last_src_error {
        return (true, None);
    }
    let changed = if release {
        update.release_hash != *current
    } else {
        update.debug_hash != *current
    };
    if changed {
        let mut stored = update.duplicate();
        if release {
            stored.release_hash = current.clone();
        } else {
            stored.debug_hash = current.clone();
        }
        proof {
            assert(stored@ =~= with_src_hash(update@, current@, release));
        }
        (true, Some(stored))
    } else {
        (false, None)
    }
}

/// Decides whether the build script is stale, `current` being its freshly
/// computed hash; as `src_files_updated`, with the build-script category's
/// sticky flag and stored hash.
pub fn build_file_updated(update: &YacUpdate, current: &String) -> (result: (
    bool,
    Option<YacUpdate>,
))
    ensures
        result.0 == build_stale(update@, current@),
        result.1 matches Some(stored) ==> stored@ == with_build_hash(update@, current@),
        result.1 is Some <==> !update@.last_build_error && update@.build_hash != current@,
{
    if update.last_build_error {
        return (true, None);
    }
    if update.build_hash != *current {
        let mut stored = update.duplicate();
        stored.build_hash = current.clone();
        proof {
            assert(stored@ =~= with_build_hash(update@, current@));
        }
        (true, Some(stored))
    } else {
        (false, None)
    }
}

/// Decides whether the manifest changed, `current` being its freshly
/// computed hash. No sticky flag overrides this category; a changed hash is
/// stored at once, so repeated unchanged invocations store nothing.
pub fn yac_toml_updated(update: &YacUpdate, current: &String) -> (result: (bool, Option<YacUpdate>))
    ensures
        result.0 == manifest_stale(update@, current@),
        result.1 matches Some(stored) ==> stored@ == with_manifest_hash(update@, current@),
        result.1 is Some <==> update@.yac_toml_hash != current@,
{
    if update.yac_toml_hash != *current {
        let mut stored = update.duplicate();
        stored.yac_toml_hash = current.clone();
        proof {
            assert(stored@ =~= with_manifest_hash(update@, current@));
        }
        (true, Some(stored))
    } else {
        (false, None)
    }
}

/// LAW: after a build-script compile failure is recorded, the next check
/// reports the script stale whatever its hash — even an unchanged one.
pub proof fn lemma_sticky_build_error_forces_recompile(u: YacUpdateView, h: Seq<char>)
    ensures
        build_stale(marked_build_error(u), h),
{
}

/// LAW: after a source compile failure is recorded, the next check reports
/// the tree stale for every profile and every hash.
pub proof fn lemma_sticky_src_error_forces_rebuild(u: YacUpdateView, h: Seq<char>, release: bool)
    ensures
        src_stale(marked_src_error(u), h, release),
{
}

/// LAW: an unchanged source tree with no sticky failure for the active
/// profile is not stale — the orchestrator then does no compiler work.
pub proof fn lemma_unchanged_tree_not_stale(u: YacUpdateView, h: Seq<char>, release: bool)
    requires
        !u.last_src_error,
        stored_src_hash(u, release) == h,
    ensures
        !src_stale(u, h, release),
{
}

/// LAW: the profiles are tracked independently: the decision for one profile
/// does not read the other profile's stored hash.
pub proof fn lemma_profiles_independent(
    u: YacUpdateView,
    other: Seq<char>,
    h: Seq<char>,
    release: bool,
)
    ensures
        src_stale(with_src_hash(u, other, !release), h, release) == src_stale(u, h, release),
{
}

} // verus!
