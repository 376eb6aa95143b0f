//! The conflict policy: what to do with whatever already occupies the
//! destination path of a link.

use vstd::prelude::*;

verus! {

/// What stands at a destination path before an installation attempt, as the
/// directory entry itself (a symbolic link is reported as a link, never as
/// what it points to).
#[derive(Clone, Copy, Debug, PartialEq, Eq, Structural)]
pub enum DestState {
    /// No entry at the destination path.
    Vacant,
    /// The destination is a directory.
    Directory,
    /// The destination is a plain (non-link, non-directory) file.
    PlainFile,
    /// The destination is itself a symbolic link, wherever it points.
    SymlinkPresent,
}

/// The decision for one entry: create the link, remove the occupant and then
/// create it, or leave the destination alone.
#[derive(Clone, Copy, Debug, PartialEq, Eq, Structural)]
pub enum LinkAction {
    /// Nothing is in the way: create the link.
    CreateLink,
    /// Remove the occupant, then create the link.
    ReplaceLink,
    /// A directory occupies the destination: never delete it, skip the entry.
    SkipDirectory,
    /// A plain file occupies the destination and force is off: keep it, skip
    /// the entry.
    SkipProtectedFile,
}

/// The conflict policy. A vacant destination is linked; a directory is never
/// touched; a plain file is replaced only under force; a symbolic link is
/// replaced unconditionally, since it carries no content of its own.
pub open spec fn link_action(dest: DestState, force: bool) -> LinkAction {
    match dest {
        DestState::Vacant => LinkAction::CreateLink,
        DestState::Directory => LinkAction::SkipDirectory,
        DestState::PlainFile => if force {
            LinkAction::ReplaceLink
        } else {
            LinkAction::SkipProtectedFile
        },
        DestState::SymlinkPresent => LinkAction::ReplaceLink,
    }
}

/// Decides what to do for one entry, given what occupies its destination.
pub fn link_plan(dest: DestState, force: bool) -> (a: LinkAction)
    ensures
        a == link_action(dest, force),
{
    match dest {
        DestState::Vacant => LinkAction::CreateLink,
        DestState::Directory => LinkAction::SkipDirectory,
        DestState::PlainFile => if force {
            LinkAction::ReplaceLink
        } else {
            LinkAction::SkipProtectedFile
        },
        DestState::SymlinkPresent => LinkAction::ReplaceLink,
    }
}

} // verus!
