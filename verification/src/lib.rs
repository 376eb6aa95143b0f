//! Installs "dotfiles": for each non-directory entry of a source directory,
//! a symbolic link named `.<entry name>` is placed in a destination ("home")
//! directory.
//!
//! The library holds the decision logic: deriving the dotted name, selecting
//! the non-directory candidates of a scan, and the conflict policy that says,
//! for whatever already sits at the destination path, whether the link is
//! created, the old entry is first removed, or the entry is skipped. The
//! filesystem itself is driven by the surrounding binary; the policy here is
//! proved against a map model of the destination directory.

pub mod dotfile;
pub mod model;
pub mod policy;
pub mod scan;

pub use dotfile::{Dotfile, InstallPlan, Installer, SkipReason};
pub use policy::{DestState, LinkAction};
pub use scan::{select_candidates, ScanEntry};
