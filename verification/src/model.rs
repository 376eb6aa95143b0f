//! A map model of the destination directory, and proofs that a whole run —
//! every candidate installed in scan order under the conflict policy — keeps
//! the promises the policy makes: directories and protected files survive,
//! symbolic links and forced files are replaced, fresh destinations all end
//! up linked, nothing outside the candidates' dotted names is ever touched,
//! and a second identical run changes nothing.

use vstd::prelude::*;

use crate::dotfile::dotted;
use crate::policy::{link_action, DestState, LinkAction};

verus! {

/// What one destination-directory entry is: a plain file, a directory, or a
/// symbolic link with its target.
pub enum FsEntry {
    File,
    Dir,
    Link(Seq<char>),
}

/// One candidate of a run: the source entry's name and the canonicalized
/// source path the link will point at.
pub struct Candidate {
    pub name: Seq<char>,
    pub source: Seq<char>,
}

/// The destination directory as the policy sees one of its names.
pub open spec fn state_of(dir: Map<Seq<char>, FsEntry>, name: Seq<char>) -> DestState {
    if !dir.contains_key(name) {
        DestState::Vacant
    } else {
        match dir[name] {
            FsEntry::File => DestState::PlainFile,
            FsEntry::Dir => DestState::Directory,
            FsEntry::Link(_) => DestState::SymlinkPresent,
        }
    }
}

/// Installing one candidate: when the policy says to create or replace, the
/// dotted name ends up holding a link to the candidate's source; when it
/// says to skip, the directory is unchanged.
pub open spec fn install_step(
    dir: Map<Seq<char>, FsEntry>,
    c: Candidate,
    force: bool,
) -> Map<Seq<char>, FsEntry> {
    match link_action(state_of(dir, dotted(c.name)), force) {
        LinkAction::CreateLink | LinkAction::ReplaceLink => dir.insert(
            dotted(c.name),
            FsEntry::Link(c.source),
        ),
        LinkAction::SkipDirectory | LinkAction::SkipProtectedFile => dir,
    }
}

/// A whole run: the candidates installed one after the other, in order.
pub open spec fn run_install(
    dir: Map<Seq<char>, FsEntry>,
    cands: Seq<Candidate>,
    force: bool,
) -> Map<Seq<char>, FsEntry>
    decreases cands.len(),
{
    if cands.len() == 0 {
        dir
    } else {
        run_install(install_step(dir, cands[0], force), cands.drop_first(), force)
    }
}

/// The names of the candidates are pairwise distinct, as the entries of one
/// directory always are.
pub open spec fn distinct_names(cands: Seq<Candidate>) -> bool {
    forall|i: int, j: int| 0 <= i < j < cands.len() ==> cands[i].name != cands[j].name
}

/// Distinct names stay distinct after the dot is prefixed.
proof fn lemma_dotted_injective(a: Seq<char>, b: Seq<char>)
    requires
        dotted(a) == dotted(b),
    ensures
        a == b,
{
    assert(a =~= dotted(a).subrange(1, dotted(a).len() as int));
    assert(b =~= dotted(b).subrange(1, dotted(b).len() as int));
}

/// A run writes only at the candidates' dotted names: any other name keeps
/// exactly the entry it had, or stays absent.
pub proof fn lemma_run_touches_only_candidates(
    dir: Map<Seq<char>, FsEntry>,
    cands: Seq<Candidate>,
    force: bool,
    x: Seq<char>,
)
    requires
        forall|j: int| 0 <= j < cands.len() ==> dotted(cands[j].name) != x,
    ensures
        run_install(dir, cands, force).contains_key(x) == dir.contains_key(x),
        dir.contains_key(x) ==> run_install(dir, cands, force)[x] == dir[x],
    decreases cands.len(),
{
    if cands.len() > 0 {
        let d1 = install_step(dir, cands[0], force);
        let tail = cands.drop_first();
        assert(dotted(cands[0].name) != x);
        assert forall|j: int| 0 <= j < tail.len() implies dotted(tail[j].name) != x by {
            assert(tail[j] == cands[j + 1]);
        }
        lemma_run_touches_only_candidates(d1, tail, force, x);
    }
}

/// When the policy, judged against the starting directory, decides to create
/// or replace at a candidate's dotted name, the run ends with a link to that
/// candidate's source there.
proof fn lemma_run_installs(
    dir: Map<Seq<char>, FsEntry>,
    cands: Seq<Candidate>,
    force: bool,
    i: int,
)
    requires
        distinct_names(cands),
        0 <= i < cands.len(),
        link_action(state_of(dir, dotted(cands[i].name)), force) == LinkAction::CreateLink
            || link_action(state_of(dir, dotted(cands[i].name)), force)
            == LinkAction::ReplaceLink,
    ensures
        run_install(dir, cands, force).contains_key(dotted(cands[i].name)),
        run_install(dir, cands, force)[dotted(cands[i].name)] == FsEntry::Link(cands[i].source),
    decreases cands.len(),
{
    let x = dotted(cands[i].name);
    let d1 = install_step(dir, cands[0], force);
    let tail = cands.drop_first();
    assert forall|a: int, b: int| 0 <= a < b < tail.len() implies tail[a].name != tail[b].name by {
        assert(tail[a] == cands[a + 1]);
        assert(tail[b] == cands[b + 1]);
    }
    if i == 0 {
        assert(d1 == dir.insert(x, FsEntry::Link(cands[0].source)));
        assert forall|j: int| 0 <= j < tail.len() implies dotted(tail[j].name) != x by {
            assert(tail[j] == cands[j + 1]);
            if dotted(tail[j].name) == x {
                lemma_dotted_injective(tail[j].name, cands[0].name);
            }
        }
        lemma_run_touches_only_candidates(d1, tail, force, x);
    } else {
        if dotted(cands[0].name) == x {
            lemma_dotted_injective(cands[0].name, cands[i].name);
        }
        assert(state_of(d1, x) == state_of(dir, x));
        assert(tail[i - 1] == cands[i]);
        lemma_run_installs(d1, tail, force, i - 1);
    }
}

/// A directory at the destination survives a run untouched: it is never
/// deleted, and no link is put in its place, whatever the force flag says.
pub proof fn lemma_directory_never_replaced(
    dir: Map<Seq<char>, FsEntry>,
    cands: Seq<Candidate>,
    force: bool,
    x: Seq<char>,
)
    requires
        dir.contains_key(x),
        dir[x] is Dir,
    ensures
        run_install(dir, cands, force).contains_key(x),
        run_install(dir, cands, force)[x] == dir[x],
    decreases cands.len(),
{
    if cands.len() > 0 {
        let d1 = install_step(dir, cands[0], force);
        assert(d1.contains_key(x) && d1[x] == dir[x]);
        lemma_directory_never_replaced(d1, cands.drop_first(), force, x);
    }
}

/// A plain file at the destination is untouched by a run without force.
pub proof fn lemma_protected_file_untouched(
    dir: Map<Seq<char>, FsEntry>,
    cands: Seq<Candidate>,
    force: bool,
    x: Seq<char>,
)
    requires
        dir.contains_key(x),
        dir[x] is File,
        !force,
    ensures
        run_install(dir, cands, force).contains_key(x),
        run_install(dir, cands, force)[x] == dir[x],
    decreases cands.len(),
{
    if cands.len() > 0 {
        let d1 = install_step(dir, cands[0], force);
        assert(d1.contains_key(x) && d1[x] == dir[x]);
        lemma_protected_file_untouched(d1, cands.drop_first(), force, x);
    }
}

/// A plain file at a candidate's destination is, under force, removed and
/// replaced by a link to that candidate's source.
pub proof fn lemma_forced_file_replaced(
    dir: Map<Seq<char>, FsEntry>,
    cands: Seq<Candidate>,
    force: bool,
    i: int,
)
    requires
        distinct_names(cands),
        0 <= i < cands.len(),
        dir.contains_key(dotted(cands[i].name)),
        dir[dotted(cands[i].name)] is File,
        force,
    ensures
        run_install(dir, cands, force).contains_key(dotted(cands[i].name)),
        run_install(dir, cands, force)[dotted(cands[i].name)] == FsEntry::Link(cands[i].source),
{
    lemma_run_installs(dir, cands, force, i);
}

/// A symbolic link at a candidate's destination — wherever it points — is
/// replaced by a link to that candidate's current source, with or without
/// force.
pub proof fn lemma_symlink_always_replaced(
    dir: Map<Seq<char>, FsEntry>,
    cands: Seq<Candidate>,
    force: bool,
    i: int,
)
    requires
        distinct_names(cands),
        0 <= i < cands.len(),
        dir.contains_key(dotted(cands[i].name)),
        dir[dotted(cands[i].name)] is Link,
    ensures
        run_install(dir, cands, force).contains_key(dotted(cands[i].name)),
        run_install(dir, cands, force)[dotted(cands[i].name)] == FsEntry::Link(cands[i].source),
{
    lemma_run_installs(dir, cands, force, i);
}

/// When no candidate's destination is occupied beforehand, a run gives every
/// candidate a link at its dotted name, pointing at its canonical source.
pub proof fn lemma_fresh_run_links_all(
    dir: Map<Seq<char>, FsEntry>,
    cands: Seq<Candidate>,
    force: bool,
)
    requires
        distinct_names(cands),
        forall|j: int| 0 <= j < cands.len() ==> state_of(dir, dotted(#[trigger] cands[j].name))
            == DestState::Vacant,
    ensures
        forall|j: int| 0 <= j < cands.len() ==> {
            &&& run_install(dir, cands, force).contains_key(dotted(#[trigger] cands[j].name))
            &&& run_install(dir, cands, force)[dotted(cands[j].name)] == FsEntry::Link(
                cands[j].source,
            )
        },
{
    assert forall|j: int| 0 <= j < cands.len() implies {
        &&& run_install(dir, cands, force).contains_key(dotted(#[trigger] cands[j].name))
        &&& run_install(dir, cands, force)[dotted(cands[j].name)] == FsEntry::Link(
            cands[j].source,
        )
    } by {
        lemma_run_installs(dir, cands, force, j);
    }
}

/// A run in which every candidate's step leaves the directory as it is
/// leaves the whole directory as it is.
proof fn lemma_run_fixed(dir: Map<Seq<char>, FsEntry>, cands: Seq<Candidate>, force: bool)
    requires
        forall|j: int| 0 <= j < cands.len() ==> #[trigger] install_step(dir, cands[j], force)
            == dir,
    ensures
        run_install(dir, cands, force) == dir,
    decreases cands.len(),
{
    if cands.len() > 0 {
        assert(install_step(dir, cands[0], force) == dir);
        let tail = cands.drop_first();
        assert forall|j: int| 0 <= j < tail.len() implies #[trigger] install_step(
            dir,
            tail[j],
            force,
        ) == dir by {
            assert(tail[j] == cands[j + 1]);
        }
        lemma_run_fixed(dir, tail, force);
    }
}

/// Idempotence: a second run with the same candidates and the same force
/// flag, against the directory the first run left behind, changes nothing.
pub proof fn lemma_run_idempotent(
    dir: Map<Seq<char>, FsEntry>,
    cands: Seq<Candidate>,
    force: bool,
)
    requires
        distinct_names(cands),
    ensures
        run_install(run_install(dir, cands, force), cands, force) == run_install(
            dir,
            cands,
            force,
        ),
{
    let d1 = run_install(dir, cands, force);
    assert forall|j: int| 0 <= j < cands.len() implies #[trigger] install_step(d1, cands[j], force)
        == d1 by {
        let x = dotted(cands[j].name);
        let a = link_action(state_of(dir, x), force);
        if a == LinkAction::CreateLink || a == LinkAction::ReplaceLink {
            lemma_run_installs(dir, cands, force, j);
            assert(state_of(d1, x) == DestState::SymlinkPresent);
            assert(install_step(d1, cands[j], force) =~= d1);
        } else if a == LinkAction::SkipDirectory {
            lemma_directory_never_replaced(dir, cands, force, x);
            assert(state_of(d1, x) == DestState::Directory);
        } else {
            lemma_protected_file_untouched(dir, cands, force, x);
            assert(state_of(d1, x) == DestState::PlainFile);
        }
    }
    lemma_run_fixed(d1, cands, force);
}

} // verus!
