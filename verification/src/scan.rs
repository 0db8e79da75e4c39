//! Choosing the directories of a listing.

use vstd::prelude::*;

verus! {

/// Why a root directory could not be listed.
#[derive(Clone, Copy, Debug, PartialEq, Eq, Structural)]
pub enum ScanError {
    /// The root does not exist.
    NotFound,
    /// The root may not be read.
    PermissionDenied,
    /// Listing failed for another reason.
    Other,
}

/// One child of the scanned root: its path, and whether it is a directory.
#[derive(Debug)]
pub struct DirListing {
    pub path: String,
    pub is_dir: bool,
}

/// The paths of the children that are directories, in listing order.
pub open spec fn directories_of(listing: Seq<DirListing>) -> Seq<Seq<char>>
    decreases listing.len(),
{
    if listing.len() == 0 {
        Seq::empty()
    } else if listing.last().is_dir {
        directories_of(listing.drop_last()).push(listing.last().path@)
    } else {
        directories_of(listing.drop_last())
    }
}

/// A path is selected exactly where some child of the listing has it and is
/// a directory.
pub proof fn lemma_directories_of(listing: Seq<DirListing>)
    ensures
        forall|p: Seq<char>|
            directories_of(listing).contains(p) <==> exists|k: int|
                0 <= k < listing.len() && (#[trigger] listing[k]).is_dir && listing[k].path@ == p,
        directories_of(listing).len() <= listing.len(),
    decreases listing.len(),
{
    if listing.len() > 0 {
        let front = listing.drop_last();
        let last = listing.last();
        lemma_directories_of(front);
        let d = directories_of(listing);
        let df = directories_of(front);
        assert forall|p: Seq<char>| d.contains(p) implies exists|k: int|
            0 <= k < listing.len() && (#[trigger] listing[k]).is_dir && listing[k].path@ == p by {
            let i = choose|i: int| 0 <= i < d.len() && d[i] == p;
            if i < df.len() {
                assert(df[i] == p);
                assert(df.contains(p));
                let k = choose|k: int|
                    0 <= k < front.len() && (#[trigger] front[k]).is_dir && front[k].path@ == p;
                assert(listing[k] == front[k]);
            } else {
                assert(listing[listing.len() - 1].is_dir);
            }
        }
        assert forall|p: Seq<char>|
            (exists|k: int|
                0 <= k < listing.len() && (#[trigger] listing[k]).is_dir && listing[k].path@
                    == p) implies d.contains(p) by {
            let k = choose|k: int|
                0 <= k < listing.len() && (#[trigger] listing[k]).is_dir && listing[k].path@ == p;
            if k < front.len() {
                assert(front[k] == listing[k]);
                assert(df.contains(p));
                let i = choose|i: int| 0 <= i < df.len() && df[i] == p;
                assert(d[i] == p);
            } else {
                assert(d[d.len() - 1] == p);
            }
        }
    }
}

/// Keeps the children that are directories, in the order of the listing.
pub fn select_directories(listing: &Vec<DirListing>) -> (dirs: Vec<String>)
    ensures
        dirs@.map_values(|p: String| p@) == directories_of(listing@),
{
    let mut dirs: Vec<String> = Vec::new();
    let mut k: usize = 0;
    assert(listing@.take(0) =~= Seq::<DirListing>::empty());
    assert(dirs@.map_values(|p: String| p@) =~= Seq::<Seq<char>>::empty());
    while k < listing.len()
        invariant
            k <= listing@.len(),
            dirs@.map_values(|p: String| p@) == directories_of(listing@.take(k as int)),
        decreases listing@.len() - k,
    {
        let ghost before = dirs@.map_values(|p: String| p@);
        proof {
            assert(listing@.take(k + 1).drop_last() =~= listing@.take(k as int));
            assert(listing@.take(k + 1).last() == listing@[k as int]);
        }
        if listing[k].is_dir {
            dirs.push(listing[k].path.clone());
            assert(dirs@.map_values(|p: String| p@) =~= before.push(listing@[k as int].path@));
        }
        k = k + 1;
    }
    assert(listing@.take(k as int) =~= listing@);
    dirs
}

} // verus!
