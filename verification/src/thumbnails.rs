//! Which packages get their picture fetched next.
//!
//! A package is a candidate as long as no picture was fetched for it and
//! none was looked for. Of the candidates the most downloaded come first;
//! of two with the same number of downloads, the one that stands earlier in
//! the catalog.

use vstd::prelude::*;

verus! {

/// What the choice looks at in a package.
#[derive(Clone, Copy, Debug, PartialEq, Eq, Structural)]
pub struct ThumbnailState {
    /// Whether a picture was looked for already.
    pub thumbnail_loaded: bool,
    /// Whether the package has a fetched picture.
    pub has_enhanced_thumbnail: bool,
    pub downloads_count: u64,
}

/// Whether the package is a candidate.
pub open spec fn wants_thumbnail(state: ThumbnailState) -> bool {
    !state.thumbnail_loaded && !state.has_enhanced_thumbnail
}

/// Whether the package at index `a` comes before the one at index `b`.
pub open spec fn comes_before(mods: Seq<ThumbnailState>, a: int, b: int) -> bool {
    mods[a].downloads_count > mods[b].downloads_count || (mods[a].downloads_count
        == mods[b].downloads_count && a < b)
}

/// Whether `picked` holds the indices of the first `limit` candidates, in
/// their order: it holds candidates only, each before the next; a candidate
/// that it does not hold comes after each that it holds; and it holds every
/// candidate unless it is full.
pub open spec fn is_first_candidates(mods: Seq<ThumbnailState>, limit: int, picked: Seq<usize>) -> bool {
    &&& picked.len() <= limit
    &&& forall|j: int|
        0 <= j < picked.len() ==> (#[trigger] picked[j]) < mods.len() && wants_thumbnail(
            mods[picked[j] as int],
        )
    &&& forall|j: int|
        0 <= j < picked.len() - 1 ==> comes_before(
            mods,
            (#[trigger] picked[j]) as int,
            picked[j + 1] as int,
        )
    &&& forall|e: int, j: int|
        #![trigger picked[j], mods[e]]
        0 <= e < mods.len() && wants_thumbnail(mods[e]) && !picked.contains(e as usize) && 0 <= j
            < picked.len() ==> comes_before(mods, picked[j] as int, e)
    &&& picked.len() < limit ==> forall|e: int|
        0 <= e < mods.len() && wants_thumbnail(#[trigger] mods[e]) ==> picked.contains(e as usize)
}

fn first_remaining(mods: &Vec<ThumbnailState>, taken: &Vec<bool>) -> (best: Option<usize>)
    requires
        taken.len() == mods.len(),
    ensures
        match best {
            Some(b) => {
                &&& b < mods.len()
                &&& wants_thumbnail(mods@[b as int])
                &&& !taken@[b as int]
                &&& forall|e: int|
                    0 <= e < mods.len() && wants_thumbnail(#[trigger] mods@[e]) && !taken@[e] && e
                        != b ==> comes_before(mods@, b as int, e)
            },
            None => forall|e: int|
                0 <= e < mods.len() && wants_thumbnail(#[trigger] mods@[e]) ==> taken@[e],
        },
{
    let mut best: Option<usize> = None;
    let mut i: usize = 0;
    while i < mods.len()
        invariant
            i <= mods.len(),
            taken.len() == mods.len(),
            match best {
                Some(b) => {
                    &&& b < i
                    &&& wants_thumbnail(mods@[b as int])
                    &&& !taken@[b as int]
                    &&& forall|e: int|
                        0 <= e < i && wants_thumbnail(#[trigger] mods@[e]) && !taken@[e] && e != b
                            ==> comes_before(mods@, b as int, e)
                },
                None => forall|e: int|
                    0 <= e < i && wants_thumbnail(#[trigger] mods@[e]) ==> taken@[e],
            },
        decreases mods.len() - i,
    {
        if !mods[i].thumbnail_loaded && !mods[i].has_enhanced_thumbnail && !taken[i] {
            match best {
                Some(b) => {
                    if mods[i].downloads_count > mods[b].downloads_count {
                        best = Some(i);
                    }
                },
                None => {
                    best = Some(i);
                },
            }
        }
        i += 1;
    }
    best
}

/// The indices of the packages whose picture is fetched next: the first
/// `limit` candidates, the most downloaded first.
pub fn thumbnail_candidates(mods: &Vec<ThumbnailState>, limit: usize) -> (picked: Vec<usize>)
    ensures
        is_first_candidates(mods@, limit as int, picked@),
{
    let mut taken: Vec<bool> = Vec::new();
    while taken.len() < mods.len()
        invariant
            taken.len() <= mods.len(),
            forall|e: int| 0 <= e < taken.len() ==> !taken@[e],
        decreases mods.len() - taken.len(),
    {
        taken.push(false);
    }
    let mut picked: Vec<usize> = Vec::new();
    while picked.len() < limit
        invariant
            taken.len() == mods.len(),
            picked.len() <= limit,
            forall|e: int| 0 <= e < mods.len() ==> (taken@[e] <==> picked@.contains(e as usize)),
            forall|j: int|
                0 <= j < picked.len() ==> (#[trigger] picked@[j]) < mods.len() && wants_thumbnail(
                    mods@[picked@[j] as int],
                ),
            forall|j: int|
                0 <= j < picked.len() - 1 ==> comes_before(
                    mods@,
                    (#[trigger] picked@[j]) as int,
                    picked@[j + 1] as int,
                ),
            forall|e: int, j: int|
                #![trigger picked@[j], mods@[e]]
                0 <= e < mods.len() && wants_thumbnail(mods@[e]) && !picked@.contains(e as usize)
                    && 0 <= j < picked.len() ==> comes_before(mods@, picked@[j] as int, e),
        decreases limit - picked.len(),
    {
        match first_remaining(mods, &taken) {
            Some(b) => {
                let ghost before = picked@;
                let ghost marked = taken@;
                picked.push(b);
                taken.set(b, true);
                proof {
                    assert(picked@[before.len() as int] == b);
                    assert forall|e: int| 0 <= e < mods.len() implies (taken@[e]
                        <==> picked@.contains(e as usize)) by {
                        if e == b {
                        } else {
                            if before.contains(e as usize) {
                                let k = choose|k: int|
                                    0 <= k < before.len() && before[k] == e as usize;
                                assert(picked@[k] == e as usize);
                            }
                            if picked@.contains(e as usize) {
                                let k = choose|k: int|
                                    0 <= k < picked@.len() && picked@[k] == e as usize;
                                assert(before[k] == e as usize);
                            }
                        }
                    }
                    assert forall|j: int| 0 <= j < picked.len() - 1 implies comes_before(
                        mods@,
                        (#[trigger] picked@[j]) as int,
                        picked@[j + 1] as int,
                    ) by {
                        if j < before.len() - 1 {
                            assert(picked@[j] == before[j]);
                            assert(picked@[j + 1] == before[j + 1]);
                        } else {
                            assert(picked@[j] == before[j]);
                            assert(!before.contains(b));
                        }
                    }
                    assert forall|e: int, j: int|
                        #![trigger picked@[j], mods@[e]]
                        0 <= e < mods.len() && wants_thumbnail(mods@[e]) && !picked@.contains(
                            e as usize,
                        ) && 0 <= j < picked.len() implies comes_before(
                        mods@,
                        picked@[j] as int,
                        e,
                    ) by {
                        assert(!taken@[e]);
                        assert(!marked[e]);
                        if j < before.len() {
                            assert(picked@[j] == before[j]);
                            assert(!before.contains(e as usize));
                        }
                    }
                }
            },
            None => {
                return picked;
            },
        }
    }
    picked
}

} // verus!
