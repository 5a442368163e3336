//! The order in which the releases of a package are shown: the newest first.
//!
//! Releases carry the time of their publication as a text in a form that
//! sorts as time does. Two releases with the same time keep the order in
//! which the catalog gave them.

use crate::dependency_resolver::Release;
use vstd::prelude::*;
use vstd::set_lib::{lemma_int_range, lemma_len_subset, lemma_subset_equality, set_int_range};
use vstd::utf8::encode_utf8;

verus! {

/// Whether the bytes `a` come before the bytes `b` in the order of a
/// dictionary: at the first place where they differ `a` has the lower byte,
/// or `a` ends there and `b` goes on.
pub open spec fn bytes_before(a: Seq<u8>, b: Seq<u8>) -> bool
    decreases a.len(),
{
    if b.len() == 0 {
        false
    } else if a.len() == 0 {
        true
    } else if a[0] != b[0] {
        a[0] < b[0]
    } else {
        bytes_before(a.drop_first(), b.drop_first())
    }
}

/// Whether the text `a` comes before the text `b`, by their bytes in UTF-8.
pub open spec fn text_before(a: Seq<char>, b: Seq<char>) -> bool {
    bytes_before(encode_utf8(a), encode_utf8(b))
}

/// Whether the text `a` comes before the text `b`.
pub fn is_before(a: &str, b: &str) -> (r: bool)
    ensures
        r == text_before(a@, b@),
{
    let x = a.as_bytes();
    let y = b.as_bytes();
    let mut i: usize = 0;
    assert(x@.skip(0) == x@ && y@.skip(0) == y@);
    while i < x.len() && i < y.len()
        invariant
            i <= x.len(),
            i <= y.len(),
            x@ == encode_utf8(a@),
            y@ == encode_utf8(b@),
            bytes_before(x@, y@) == bytes_before(x@.skip(i as int), y@.skip(i as int)),
        decreases x.len() - i,
    {
        assert(x@.skip(i as int)[0] == x@[i as int]);
        assert(y@.skip(i as int)[0] == y@[i as int]);
        if x[i] != y[i] {
            return x[i] < y[i];
        }
        assert(x@.skip(i as int).drop_first() == x@.skip(i + 1));
        assert(y@.skip(i as int).drop_first() == y@.skip(i + 1));
        i += 1;
    }
    i < y.len()
}

/// The times of publication of a sequence of releases.
pub open spec fn release_dates(releases: Seq<Release>) -> Seq<Seq<char>> {
    Seq::new(releases.len(), |i: int| releases[i].released_at@)
}

/// Whether the release at index `a` is shown before the one at index `b`:
/// it is newer, or as new and earlier in the catalog.
pub open spec fn shown_before(dates: Seq<Seq<char>>, a: int, b: int) -> bool {
    text_before(dates[b], dates[a]) || (!text_before(dates[a], dates[b]) && a < b)
}

/// Whether `order` lists the indices of all releases, the newest first:
/// each index occurs in it, and each of its entries is shown before the
/// next.
pub open spec fn is_newest_first(dates: Seq<Seq<char>>, order: Seq<usize>) -> bool {
    &&& order.len() == dates.len()
    &&& forall|j: int| 0 <= j < order.len() ==> (#[trigger] order[j]) < dates.len()
    &&& forall|j: int|
        0 <= j < order.len() - 1 ==> shown_before(
            dates,
            (#[trigger] order[j]) as int,
            order[j + 1] as int,
        )
    &&& forall|e: usize| e < dates.len() ==> #[trigger] order.contains(e)
}

/// Of two sequences of bytes one comes before the other, or they are the
/// same; and never both come before each other.
pub proof fn lemma_bytes_order_total(a: Seq<u8>, b: Seq<u8>)
    ensures
        bytes_before(a, b) || bytes_before(b, a) || a == b,
        !(bytes_before(a, b) && bytes_before(b, a)),
        !bytes_before(a, a),
    decreases a.len(),
{
    if a.len() > 0 && b.len() > 0 && a[0] == b[0] {
        lemma_bytes_order_total(a.drop_first(), b.drop_first());
        if a.drop_first() == b.drop_first() {
            assert(a =~= seq![a[0]] + a.drop_first());
            assert(b =~= seq![b[0]] + b.drop_first());
        }
    }
    if a.len() > 0 {
        lemma_bytes_order_total(a.drop_first(), a.drop_first());
    }
    if a.len() == 0 && b.len() == 0 {
        assert(a =~= b);
    }
}

/// What comes before something that comes before a third comes before the
/// third.
pub proof fn lemma_bytes_order_transitive(a: Seq<u8>, b: Seq<u8>, c: Seq<u8>)
    requires
        bytes_before(a, b),
        bytes_before(b, c),
    ensures
        bytes_before(a, c),
    decreases a.len(),
{
    if a.len() > 0 && b.len() > 0 && c.len() > 0 && a[0] == b[0] && b[0] == c[0] {
        lemma_bytes_order_transitive(a.drop_first(), b.drop_first(), c.drop_first());
    }
}

proof fn lemma_replace_first(dates: Seq<Seq<char>>, b: int, i: int, e: int)
    requires
        text_before(dates[b], dates[i]),
        shown_before(dates, b, e),
    ensures
        shown_before(dates, i, e),
{
    let db = encode_utf8(dates[b]);
    let di = encode_utf8(dates[i]);
    let de = encode_utf8(dates[e]);
    if bytes_before(de, db) {
        lemma_bytes_order_transitive(de, db, di);
    } else {
        lemma_bytes_order_total(db, de);
    }
}

fn newest_remaining(releases: &Vec<Release>, taken: &Vec<bool>) -> (best: Option<usize>)
    requires
        taken.len() == releases.len(),
    ensures
        match best {
            Some(b) => {
                &&& b < releases.len()
                &&& !taken@[b as int]
                &&& forall|e: int|
                    0 <= e < releases.len() && !(#[trigger] taken@[e]) && e != b ==> shown_before(
                        release_dates(releases@),
                        b as int,
                        e,
                    )
            },
            None => forall|e: int| 0 <= e < releases.len() ==> #[trigger] taken@[e],
        },
{
    let ghost dates = release_dates(releases@);
    let mut best: Option<usize> = None;
    let mut i: usize = 0;
    while i < releases.len()
        invariant
            i <= releases.len(),
            taken.len() == releases.len(),
            dates == release_dates(releases@),
            match best {
                Some(b) => {
                    &&& b < i
                    &&& !taken@[b as int]
                    &&& forall|e: int|
                        0 <= e < i && !(#[trigger] taken@[e]) && e != b ==> shown_before(
                            dates,
                            b as int,
                            e,
                        )
                },
                None => forall|e: int| 0 <= e < i ==> #[trigger] taken@[e],
            },
        decreases releases.len() - i,
    {
        if !taken[i] {
            match best {
                Some(b) => {
                    assert(dates[b as int] == releases@[b as int].released_at@);
                    assert(dates[i as int] == releases@[i as int].released_at@);
                    if is_before(releases[b].released_at.as_str(), releases[i].released_at.as_str()) {
                        proof {
                            assert forall|e: int|
                                0 <= e < i + 1 && !(#[trigger] taken@[e]) && e
                                    != i implies shown_before(dates, i as int, e) by {
                                if e != b {
                                    lemma_replace_first(dates, b as int, i as int, e);
                                }
                            }
                        }
                        best = Some(i);
                    }
                },
                None => {
                    best = Some(i);
                },
            }
        }
        i += 1;
    }
    best
}

/// The indices of the releases in the order in which they are shown: the
/// newest first, and of two that are as new as each other the one first that
/// the catalog gave first.
pub fn newest_first(releases: &Vec<Release>) -> (order: Vec<usize>)
    ensures
        is_newest_first(release_dates(releases@), order@),
{
    let ghost dates = release_dates(releases@);
    let mut taken: Vec<bool> = Vec::new();
    while taken.len() < releases.len()
        invariant
            taken.len() <= releases.len(),
            forall|e: int| 0 <= e < taken.len() ==> !taken@[e],
        decreases releases.len() - taken.len(),
    {
        taken.push(false);
    }
    let mut order: Vec<usize> = Vec::new();
    let mut round: usize = 0;
    while round < releases.len()
        invariant
            round <= releases.len(),
            order.len() == round,
            taken.len() == releases.len(),
            dates == release_dates(releases@),
            order@.no_duplicates(),
            forall|e: int| 0 <= e < releases.len() ==> (taken@[e] <==> order@.contains(e as usize)),
            forall|j: int| 0 <= j < order.len() ==> (#[trigger] order@[j]) < releases.len(),
            forall|j: int|
                0 <= j < order.len() - 1 ==> shown_before(
                    dates,
                    (#[trigger] order@[j]) as int,
                    order@[j + 1] as int,
                ),
            forall|e: int, j: int|
                #![trigger order@[j], taken@[e]]
                0 <= e < releases.len() && !taken@[e] && 0 <= j < order.len() ==> shown_before(
                    dates,
                    order@[j] as int,
                    e,
                ),
        decreases releases.len() - round,
    {
        match newest_remaining(releases, &taken) {
            Some(b) => {
                let ghost before = order@;
                let ghost marked = taken@;
                order.push(b);
                taken.set(b, true);
                proof {
                    assert(order@[before.len() as int] == b);
                    assert(!before.contains(b));
                    assert forall|e: int| 0 <= e < releases.len() implies (taken@[e]
                        <==> order@.contains(e as usize)) by {
                        if e != b {
                            if before.contains(e as usize) {
                                let k = choose|k: int|
                                    0 <= k < before.len() && before[k] == e as usize;
                                assert(order@[k] == e as usize);
                            }
                            if order@.contains(e as usize) {
                                let k = choose|k: int|
                                    0 <= k < order@.len() && order@[k] == e as usize;
                                assert(before[k] == e as usize);
                            }
                        }
                    }
                    assert forall|j: int, k: int|
                        0 <= j < order@.len() && 0 <= k < order@.len() && j != k implies order@[j]
                        != order@[k] by {
                        if j < before.len() && k < before.len() {
                            assert(before[j] != before[k]);
                        } else if j < before.len() {
                            assert(before.contains(before[j]));
                        } else if k < before.len() {
                            assert(before.contains(before[k]));
                        }
                    }
                    assert forall|j: int| 0 <= j < order.len() - 1 implies shown_before(
                        dates,
                        (#[trigger] order@[j]) as int,
                        order@[j + 1] as int,
                    ) by {
                        assert(order@[j] == before[j]);
                        if j < before.len() - 1 {
                            assert(order@[j + 1] == before[j + 1]);
                        } else {
                            assert(!marked[b as int]);
                        }
                    }
                    assert forall|e: int, j: int|
                        #![trigger order@[j], taken@[e]]
                        0 <= e < releases.len() && !taken@[e] && 0 <= j
                            < order.len() implies shown_before(dates, order@[j] as int, e) by {
                        assert(!marked[e]);
                        if j < before.len() {
                            assert(order@[j] == before[j]);
                        }
                    }
                }
            },
            None => {
                proof {
                    assert forall|e: usize| e < releases.len() implies #[trigger] order@.contains(
                        e,
                    ) by {
                        assert(taken@[e as int]);
                    }
                    lemma_holds_all(releases.len() as int, order@);
                }
            },
        }
        round += 1;
    }
    proof {
        lemma_all_listed(releases.len() as int, order@);
    }
    order
}

proof fn lemma_holds_all(n: int, order: Seq<usize>)
    requires
        0 <= n <= usize::MAX,
        forall|e: usize| e < n ==> #[trigger] order.contains(e),
    ensures
        order.len() >= n,
{
    broadcast use vstd::seq_lib::seq_to_set_is_finite;

    let as_ints = Seq::new(order.len(), |i: int| order[i] as int);
    lemma_int_range(0, n);
    assert(set_int_range(0, n).subset_of(as_ints.to_set())) by {
        assert forall|x: int| set_int_range(0, n).contains(x) implies as_ints.to_set().contains(
            x,
        ) by {
            assert(order.contains(x as usize));
            let k = choose|k: int| 0 <= k < order.len() && order[k] == x as usize;
            assert(as_ints[k] == x);
        }
    }
    lemma_len_subset(set_int_range(0, n), as_ints.to_set());
    as_ints.lemma_cardinality_of_set();
}

proof fn lemma_all_listed(n: int, order: Seq<usize>)
    requires
        0 <= n,
        order.no_duplicates(),
        forall|j: int| 0 <= j < order.len() ==> (#[trigger] order[j]) < n,
        order.len() == n,
    ensures
        forall|e: usize| e < n ==> #[trigger] order.contains(e),
{
    let as_ints = Seq::new(order.len(), |i: int| order[i] as int);
    assert(as_ints.no_duplicates());
    as_ints.unique_seq_to_set();
    lemma_int_range(0, n);
    assert(as_ints.to_set().subset_of(set_int_range(0, n))) by {
        assert forall|x: int| as_ints.to_set().contains(x) implies set_int_range(0, n).contains(
            x,
        ) by {
            let k = choose|k: int| 0 <= k < as_ints.len() && as_ints[k] == x;
            assert(order[k] < n);
        }
    }
    lemma_len_subset(as_ints.to_set(), set_int_range(0, n));
    lemma_subset_equality(as_ints.to_set(), set_int_range(0, n));
    assert forall|e: usize| e < n implies #[trigger] order.contains(e) by {
        assert(set_int_range(0, n).contains(e as int));
        assert(as_ints.to_set().contains(e as int));
        let k = choose|k: int| 0 <= k < as_ints.len() && as_ints[k] == e as int;
        assert(order[k] == e);
    }
}

} // verus!
