//! The deletion workflow's decisions: the settings that gate it, the
//! confirmation contract, and the single rule that decides whether an emptied
//! parent directory is pruned.
//!
//! The unverified shell performs the filesystem removals and reports back
//! what happened; every decision about what to remove is taken here. The
//! in-memory removal itself lives on the result set and never depends on the
//! filesystem's verdict.

use vstd::prelude::*;

verus! {

/// The two switches of the deletion settings. Removal from disk guards
/// pruning of parent folders: pruning can only be switched on while removal
/// from disk is on, and switching removal off forces pruning off.
pub struct DeletionSettings {
    delete_files: bool,
    delete_folders: bool,
}

impl DeletionSettings {
    /// Whether deletion touches the filesystem at all.
    pub closed spec fn files_enabled(self) -> bool {
        self.delete_files
    }

    /// Whether an emptied parent directory is pruned after a removal.
    pub closed spec fn folders_enabled(self) -> bool {
        self.delete_folders
    }

    #[verifier::type_invariant]
    closed spec fn inv(self) -> bool {
        self.delete_folders ==> self.delete_files
    }

    /// The defaults: deletion only edits the visible list.
    pub fn new() -> (s: Self)
        ensures
            !s.files_enabled(),
            !s.folders_enabled(),
    {
        DeletionSettings { delete_files: false, delete_folders: false }
    }

    /// Switches removal from disk. Turning it off forces pruning off;
    /// turning it on leaves pruning as it was (necessarily off).
    pub fn set_delete_files(&mut self, on: bool)
        ensures
            final(self).files_enabled() == on,
            final(self).folders_enabled() == (on && old(self).folders_enabled()),
    {
        proof {
            use_type_invariant(&*self);
        }
        if !on {
            self.delete_folders = false;
        }
        self.delete_files = on;
    }

    /// Switches pruning of parent folders. The switch only takes effect
    /// while removal from disk is enabled; otherwise the request is refused
    /// and nothing changes.
    pub fn set_delete_folders(&mut self, on: bool) -> (accepted: bool)
        ensures
            final(self).files_enabled() == old(self).files_enabled(),
            accepted == old(self).files_enabled(),
            accepted ==> final(self).folders_enabled() == on,
            !accepted ==> final(self).folders_enabled() == old(self).folders_enabled(),
    {
        proof {
            use_type_invariant(&*self);
        }
        if self.delete_files {
            self.delete_folders = on;
            true
        } else {
            false
        }
    }

    /// Contract of the confirmation gate: a destructive confirmation step is
    /// required exactly when deletion touches the filesystem. When it does
    /// not, only the in-memory set changes and no path on disk is touched.
    pub fn needs_confirmation(&self) -> (b: bool)
        ensures
            b == self.files_enabled(),
    {
        self.delete_files
    }
}

/// Whether the parent directory of a just-processed path is pruned: only
/// when deletion touches the filesystem, pruning is enabled, the file itself
/// was removed, and the parent is now empty.
pub open spec fn spec_should_remove_parent(
    settings: DeletionSettings,
    file_removed: bool,
    parent_entries: int,
) -> bool {
    settings.files_enabled() && settings.folders_enabled() && file_removed && parent_entries == 0
}

/// Decides pruning for one path, from what the filesystem reported: whether
/// the file's removal succeeded and how many entries its parent still holds.
pub fn should_remove_parent(
    settings: &DeletionSettings,
    file_removed: bool,
    parent_entries: usize,
) -> (b: bool)
    ensures
        b == spec_should_remove_parent(*settings, file_removed, parent_entries as int),
{
    settings.delete_files && settings.delete_folders && file_removed && parent_entries == 0
}

/// How many entries a directory holds after an attempted removal of one of
/// its files.
pub open spec fn entries_after_removal(entries_before: int, file_removed: bool) -> int {
    if file_removed {
        entries_before - 1
    } else {
        entries_before
    }
}

/// Law: with pruning enabled, deleting the sole file of a directory removes
/// the directory too, and deleting one of several files leaves it standing.
pub proof fn lemma_cascade_prunes_sole_file(settings: DeletionSettings, entries_before: int)
    requires
        settings.files_enabled(),
        settings.folders_enabled(),
        entries_before >= 1,
    ensures
        spec_should_remove_parent(settings, true, entries_after_removal(entries_before, true)) == (
        entries_before == 1),
{
}

/// Law: with pruning disabled, no directory is ever removed, whatever the
/// filesystem reported.
pub proof fn lemma_no_cascade_never_prunes(
    settings: DeletionSettings,
    file_removed: bool,
    parent_entries: int,
)
    requires
        !settings.folders_enabled(),
    ensures
        !spec_should_remove_parent(settings, file_removed, parent_entries),
{
}

/// Law: while deletion does not touch the filesystem, nothing is pruned
/// either; the whole operation is the in-memory removal.
pub proof fn lemma_disabled_touches_no_directory(
    settings: DeletionSettings,
    file_removed: bool,
    parent_entries: int,
)
    requires
        !settings.files_enabled(),
    ensures
        !spec_should_remove_parent(settings, file_removed, parent_entries),
{
}

} // verus!
