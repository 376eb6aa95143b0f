//! A dotfile: one non-directory entry of the source directory, together with
//! the naming logic (`name`, `dotname`, destination path) and the per-entry
//! installation plan.

use vstd::prelude::*;
use vstd::string::{StrSliceExecFns, StringExecFns};

use crate::policy::{link_action, link_plan, DestState, LinkAction};

verus! {

/// The final component of a path: the characters after the last `/`, or the
/// whole path when it holds no `/`. Empty when the path ends in `/`.
pub open spec fn name_of(path: Seq<char>) -> Seq<char>
    decreases path.len(),
{
    if path.len() == 0 {
        Seq::empty()
    } else if path.last() == '/' {
        Seq::empty()
    } else {
        name_of(path.drop_last()).push(path.last())
    }
}

/// `name` prefixed with a dot.
pub open spec fn dotted(name: Seq<char>) -> Seq<char> {
    seq!['.'] + name
}

/// The name the link gets in the destination directory: `.` + the final
/// component of the source path.
pub open spec fn dotname_of(path: Seq<char>) -> Seq<char> {
    dotted(name_of(path))
}

/// A path names a plain entry when its final component is non-empty and is
/// neither `.` nor `..` — that is, when the path points at something that can
/// be a file rather than at a directory by syntax alone. Every path a
/// directory scan yields is of this form.
pub open spec fn has_file_name(path: Seq<char>) -> bool {
    &&& name_of(path).len() > 0
    &&& name_of(path) != seq!['.']
    &&& name_of(path) != seq!['.', '.']
}

/// The destination of the link for a source path: the home directory, a
/// separator, and the dotted name.
pub open spec fn dest_path(home: Seq<char>, path: Seq<char>) -> Seq<char> {
    home + seq!['/'] + dotname_of(path)
}

/// When nothing at or after position `i` is a slash, and `i` sits just after
/// a slash (or at the start), the name is exactly the suffix from `i` on.
proof fn lemma_name_of_is_suffix(path: Seq<char>, i: int)
    requires
        0 <= i <= path.len(),
        forall|j: int| i <= j < path.len() ==> path[j] != '/',
        i > 0 ==> path[i - 1] == '/',
    ensures
        name_of(path) == path.subrange(i, path.len() as int),
    decreases path.len(),
{
    if i == path.len() {
        assert(name_of(path) =~= path.subrange(i, path.len() as int));
    } else {
        let prefix = path.drop_last();
        lemma_name_of_is_suffix(prefix, i);
        assert(name_of(path) =~= path.subrange(i, path.len() as int));
    }
}

/// Finds where the final component of `s` starts: the position just after
/// the last `/`, or `0` when there is none.
fn component_start(s: &str) -> (i: usize)
    ensures
        i <= s@.len(),
        name_of(s@) == s@.subrange(i as int, s@.len() as int),
{
    let len: usize = s.unicode_len();
    let mut i: usize = len;
    loop
        invariant_except_break
            i <= len,
            len == s@.len(),
            forall|j: int| i <= j < len ==> s@[j] != '/',
        ensures
            i <= len,
            len == s@.len(),
            forall|j: int| i <= j < len ==> s@[j] != '/',
            i > 0 ==> s@[i - 1] == '/',
        decreases i,
    {
        if i == 0 {
            break;
        }
        if s.get_char(i - 1) == '/' {
            break;
        }
        i = i - 1;
    }
    proof {
        lemma_name_of_is_suffix(s@, i as int);
    }
    i
}

/// The read-only context of a run: the resolved destination directory and
/// the force flag. Shared by every link attempt.
pub struct Installer {
    pub home_directory: String,
    pub force: bool,
}

/// Why an entry was skipped rather than linked.
#[derive(Clone, Copy, Debug, PartialEq, Eq, Structural)]
pub enum SkipReason {
    /// The destination is a directory; directories are never deleted.
    Directory,
    /// The destination is a plain file and force is off.
    ProtectedFile,
}

/// The plan for one entry: either skip it (with the reason to report), or
/// create the link at `destination`, removing what stands there first when
/// `remove_existing` is set.
#[derive(Debug, PartialEq)]
pub enum InstallPlan {
    Skip(SkipReason),
    Link { destination: String, remove_existing: bool },
}

/// One candidate entry of the source directory. The path is stored once;
/// `name` and `dotname` are derived from it on demand, so they can never
/// drift apart.
#[derive(Debug)]
pub struct Dotfile {
    pub path: String,
}

impl Dotfile {
    /// Wraps a source path as a dotfile candidate.
    pub fn from_path(path: String) -> (d: Dotfile)
        ensures
            d.path == path,
    {
        Dotfile { path }
    }

    /// Whether this path has a usable final component, so that `name`,
    /// `dotname` and the installation plan are defined for it. A caller that
    /// cannot know this statically checks here first.
    pub fn has_simple_name(&self) -> (b: bool)
        ensures
            b == has_file_name(self.path@),
    {
        let s: &str = self.path.as_str();
        let i: usize = component_start(s);
        let len: usize = s.unicode_len();
        let n: usize = len - i;
        if n == 0 {
            proof {
                assert(!has_file_name(self.path@));
            }
            return false;
        }
        if n == 1 && s.get_char(i) == '.' {
            proof {
                assert(name_of(self.path@) =~= seq!['.']);
            }
            return false;
        }
        if n == 2 && s.get_char(i) == '.' && s.get_char(i + 1) == '.' {
            proof {
                assert(name_of(self.path@) =~= seq!['.', '.']);
            }
            return false;
        }
        proof {
            let nm = name_of(self.path@);
            assert(nm.len() == n);
            if nm == seq!['.'] {
                assert(nm[0] == '.');
                assert(false);
            }
            if nm == seq!['.', '.'] {
                assert(nm[0] == '.' && nm[1] == '.');
                assert(false);
            }
        }
        true
    }

    /// The entry's name: the final component of its path.
    pub fn name(&self) -> (r: String)
        requires
            has_file_name(self.path@),
        ensures
            r@ == name_of(self.path@),
    {
        let s: &str = self.path.as_str();
        let i: usize = component_start(s);
        let len: usize = s.unicode_len();
        let sub: &str = s.substring_char(i, len);
        String::from_str(sub)
    }

    /// The name the installed link carries: the entry's name with a leading
    /// dot.
    pub fn dotname(&self) -> (r: String)
        requires
            has_file_name(self.path@),
        ensures
            r@ == dotname_of(self.path@),
    {
        let mut r = String::from_str(".");
        let n = self.name();
        r.append(n.as_str());
        proof {
            reveal_strlit(".");
            assert(r@ =~= dotname_of(self.path@));
        }
        r
    }

    /// The full destination path of the link inside `home`.
    pub fn destination(&self, home: &str) -> (d: String)
        requires
            has_file_name(self.path@),
        ensures
            d@ == dest_path(home@, self.path@),
    {
        let mut d = String::from_str(home);
        d.append("/");
        let dn = self.dotname();
        d.append(dn.as_str());
        proof {
            reveal_strlit("/");
            assert(d@ =~= dest_path(home@, self.path@));
        }
        d
    }

    /// Applies the conflict policy to this entry, given what occupies its
    /// destination, and says what the run must now do for it: skip with a
    /// reason, or link (after a removal when something replaceable is in the
    /// way). The destination in a returned `Link` is exactly
    /// `home_directory/.name`.
    pub fn install_plan(&self, installer: &Installer, dest: DestState) -> (p: InstallPlan)
        requires
            has_file_name(self.path@),
        ensures
            ({
                let a = link_action(dest, installer.force);
                match p {
                    InstallPlan::Skip(r) => (a == LinkAction::SkipDirectory && r
                        == SkipReason::Directory) || (a == LinkAction::SkipProtectedFile && r
                        == SkipReason::ProtectedFile),
                    InstallPlan::Link { destination, remove_existing } => destination@
                        == dest_path(installer.home_directory@, self.path@) && ((a
                        == LinkAction::CreateLink && !remove_existing) || (a
                        == LinkAction::ReplaceLink && remove_existing)),
                }
            }),
    {
        match link_plan(dest, installer.force) {
            LinkAction::SkipDirectory => InstallPlan::Skip(SkipReason::Directory),
            LinkAction::SkipProtectedFile => InstallPlan::Skip(SkipReason::ProtectedFile),
            LinkAction::CreateLink => InstallPlan::Link {
                destination: self.destination(installer.home_directory.as_str()),
                remove_existing: false,
            },
            LinkAction::ReplaceLink => InstallPlan::Link {
                destination: self.destination(installer.home_directory.as_str()),
                remove_existing: true,
            },
        }
    }
}

} // verus!
