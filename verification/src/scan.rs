//! The directory scanner's pure half: out of the entries a directory listing
//! reports, keep the non-directories, in listing order, as dotfile
//! candidates.

use vstd::prelude::*;

use crate::dotfile::Dotfile;

verus! {

/// One entry of a directory listing, as the surrounding binary reports it:
/// its path and whether it is a directory.
#[derive(Debug)]
pub struct ScanEntry {
    pub path: String,
    pub is_dir: bool,
}

/// The paths of the non-directory entries, in order.
pub open spec fn candidate_paths(entries: Seq<ScanEntry>) -> Seq<Seq<char>>
    decreases entries.len(),
{
    if entries.len() == 0 {
        Seq::empty()
    } else {
        let rest = candidate_paths(entries.drop_last());
        if entries.last().is_dir {
            rest
        } else {
            rest.push(entries.last().path@)
        }
    }
}

/// Keeps the non-directory entries of a listing, in order, as dotfile
/// candidates; subdirectories are silently dropped, never descended into.
pub fn select_candidates(entries: Vec<ScanEntry>) -> (r: Vec<Dotfile>)
    ensures
        r@.map_values(|d: Dotfile| d.path@) == candidate_paths(entries@),
{
    let mut r: Vec<Dotfile> = Vec::new();
    let mut idx: usize = 0;
    while idx < entries.len()
        invariant
            idx <= entries@.len(),
            r@.map_values(|d: Dotfile| d.path@) == candidate_paths(entries@.take(idx as int)),
        decreases entries@.len() - idx,
    {
        let e = &entries[idx];
        if !e.is_dir {
            r.push(Dotfile::from_path(e.path.clone()));
        }
        proof {
            assert(entries@.take(idx as int + 1).drop_last() =~= entries@.take(idx as int));
            assert(r@.map_values(|d: Dotfile| d.path@) =~= candidate_paths(
                entries@.take(idx as int + 1),
            ));
        }
        idx = idx + 1;
    }
    proof {
        assert(entries@.take(entries@.len() as int) =~= entries@);
    }
    r
}

} // verus!
