//! A whole resolution against a table of metadata.
//!
//! The table holds, for each package that the catalog was asked about, what
//! it answered: the releases of the package, or the reason why there are
//! none. A package that the table does not hold counts as not found. With
//! such a table the walk over the dependency graph runs from the root to its
//! end without waiting for anything, and the plan goes to the queue.

use crate::dependency_resolver::{
    enqueue_plan, plan_enqueued, releases_view, results_view, Release, ResolveError,
    ResolveRequest, ResolveRun,
};
use crate::download_queue::{DownloadQueueManager, ItemView, QueueView};
use crate::resolve_model::{
    has_key, lemma_expand_preserves, lemma_expand_selects, lemma_key_index_from,
    lemma_lookup_push, lemma_next_entry_is_new, FailureView, Pairs, ReleaseView, ResolveErrorView,
    RunView,
};
use crate::text::same_text;
use vstd::prelude::*;
use vstd::string::StringExecFns;

verus! {

/// The cause that is given for a package that the table does not hold.
pub const UNKNOWN_PACKAGE_CAUSE: &'static str = "Erro HTTP: 404 Not Found";

/// What the catalog answered for one package.
#[derive(Debug)]
pub struct PackageMetadata {
    pub name: String,
    /// The releases, or the reason why they could not be fetched.
    pub fetched: Result<Vec<Release>, String>,
}

/// The mathematical view of the catalog's answer for one package.
pub struct MetadataView {
    pub name: Seq<char>,
    pub fetched: Result<Seq<ReleaseView>, Seq<char>>,
}

impl View for PackageMetadata {
    type V = MetadataView;

    open spec fn view(&self) -> MetadataView {
        MetadataView {
            name: self.name@,
            fetched: match self.fetched {
                Ok(releases) => Ok(releases_view(releases@)),
                Err(cause) => Err(cause@),
            },
        }
    }
}

/// The views of a table of metadata.
pub open spec fn table_view(table: Seq<PackageMetadata>) -> Seq<MetadataView> {
    Seq::new(table.len(), |i: int| table[i]@)
}

/// The least index at or after `from` of an answer for `name`.
pub open spec fn metadata_index_from(table: Seq<MetadataView>, name: Seq<char>, from: int) -> Option<
    int,
>
    decreases table.len() - from,
{
    if from < 0 || from >= table.len() {
        None
    } else if table[from].name == name {
        Some(from)
    } else {
        metadata_index_from(table, name, from + 1)
    }
}

/// What fetching `name` gives: the first answer that the table holds for
/// it; not found, where it holds none.
pub open spec fn fetch_of(table: Seq<MetadataView>, name: Seq<char>) -> Result<
    Seq<ReleaseView>,
    Seq<char>,
> {
    match metadata_index_from(table, name, 0) {
        Some(k) => table[k].fetched,
        None => Err(UNKNOWN_PACKAGE_CAUSE@),
    }
}

/// One round of the walk: the next entry is taken from the work queue, its
/// package is fetched, and the entry is expanded. A fetch that fails gives
/// the run up, and so does an expansion that selects no release.
pub open spec fn round(run: RunView, table: Seq<MetadataView>) -> Result<RunView, ResolveErrorView> {
    match run.next_entry() {
        Some(entry) => match fetch_of(table, entry.name) {
            Ok(releases) => match run.after_next().expand_outcome(entry, releases) {
                Ok(_) => Ok(run.after_next().expand(entry, releases)),
                Err(error) => Err(error),
            },
            Err(cause) => Err(run.after_next().failure(entry, FailureView::Fetch(cause))),
        },
        None => Ok(run.after_next()),
    }
}

/// The run after `n` rounds, or the error that gave it up on the way.
pub open spec fn rounds(run: RunView, table: Seq<MetadataView>, n: nat) -> Result<
    RunView,
    ResolveErrorView,
>
    decreases n,
{
    if n == 0 {
        Ok(run)
    } else {
        match rounds(run, table, (n - 1) as nat) {
            Ok(before) => round(before, table),
            Err(error) => Err(error),
        }
    }
}

/// Whether `outcome` is what the resolution of `root_mod` at `version`
/// against `table` ends with: the run when nothing is pending any more, or
/// the error that gave it up.
pub open spec fn resolved(
    root_mod: Seq<char>,
    version: Seq<char>,
    table: Seq<MetadataView>,
    outcome: Result<RunView, ResolveErrorView>,
) -> bool {
    exists|n: nat| #[trigger]
        rounds(RunView::start(root_mod, version), table, n) == outcome && match outcome {
            Ok(run) => run.pending.len() == 0,
            Err(_) => true,
        }
}

/// The number of answers in the table for packages that have no release
/// chosen yet.
pub open spec fn unprocessed(table: Seq<MetadataView>, chosen: Pairs) -> nat
    decreases table.len(),
{
    if table.len() == 0 {
        0
    } else {
        unprocessed(table.drop_last(), chosen) + if has_key(chosen, table.last().name) {
            0nat
        } else {
            1nat
        }
    }
}

proof fn lemma_unprocessed_push(
    table: Seq<MetadataView>,
    chosen: Pairs,
    entry: (Seq<char>, Seq<char>),
)
    ensures
        unprocessed(table, chosen.push(entry)) <= unprocessed(table, chosen),
        !has_key(chosen, entry.0) && (exists|k: int|
            0 <= k < table.len() && (#[trigger] table[k]).name == entry.0) ==> unprocessed(
            table,
            chosen.push(entry),
        ) < unprocessed(table, chosen),
    decreases table.len(),
{
    if table.len() > 0 {
        let shorter = table.drop_last();
        lemma_unprocessed_push(shorter, chosen, entry);
        lemma_lookup_push(chosen, entry, table.last().name);
        if !has_key(chosen, entry.0) && (exists|k: int|
            0 <= k < table.len() && (#[trigger] table[k]).name == entry.0) {
            let k = choose|k: int| 0 <= k < table.len() && (#[trigger] table[k]).name == entry.0;
            if k < table.len() - 1 {
                assert(shorter[k].name == entry.0);
            } else {
                assert(table.last().name == entry.0);
            }
        }
    }
}

/// The packages that are fetched in the first `n` rounds of the walk that
/// begins with `run`, in the order in which they are fetched: in each round
/// that takes an entry from the work queue, the entry's package.
pub open spec fn fetched_in(run: RunView, table: Seq<MetadataView>, n: nat) -> Seq<Seq<char>>
    decreases n,
{
    if n == 0 {
        Seq::empty()
    } else {
        let earlier = fetched_in(run, table, (n - 1) as nat);
        match rounds(run, table, (n - 1) as nat) {
            Ok(before) => match before.next_entry() {
                Some(entry) => earlier.push(entry.name),
                None => earlier,
            },
            Err(_) => earlier,
        }
    }
}

/// The names that an association list holds, in order.
pub open spec fn names_of(entries: Pairs) -> Seq<Seq<char>> {
    Seq::new(entries.len(), |i: int| entries[i].0)
}

/// Over a whole resolution each package is fetched and expanded once,
/// however many packages declare it and under whatever requirements: the
/// packages fetched in the rounds of a resolution all differ. While the
/// resolution goes on, they are the packages that have a release chosen, in
/// the order of the plan, one release each.
pub proof fn lemma_each_package_once(
    root_mod: Seq<char>,
    version: Seq<char>,
    table: Seq<MetadataView>,
    n: nat,
)
    ensures
        forall|i: int, j: int|
            0 <= i < j < fetched_in(RunView::start(root_mod, version), table, n).len() ==> fetched_in(
                RunView::start(root_mod, version),
                table,
                n,
            )[i] != fetched_in(RunView::start(root_mod, version), table, n)[j],
        match rounds(RunView::start(root_mod, version), table, n) {
            Ok(run) => run.wf() && names_of(run.chosen) == fetched_in(
                RunView::start(root_mod, version),
                table,
                n,
            ),
            Err(_) => true,
        },
    decreases n,
{
    let start = RunView::start(root_mod, version);
    if n == 0 {
        assert(names_of(start.chosen) =~= fetched_in(start, table, n));
    } else {
        let m = (n - 1) as nat;
        lemma_each_package_once(root_mod, version, table, m);
        let earlier = fetched_in(start, table, m);
        let now = fetched_in(start, table, n);
        match rounds(start, table, m) {
            Ok(before) => {
                lemma_next_entry_is_new(before);
                match before.next_entry() {
                    Some(entry) => {
                        let taken = before.after_next();
                        lemma_key_index_from(before.chosen, entry.name, 0);
                        assert forall|i: int, j: int| 0 <= i < j < now.len() implies now[i]
                            != now[j] by {
                            if j == earlier.len() {
                                assert(earlier[i] == before.chosen[i].0);
                            }
                        }
                        match fetch_of(table, entry.name) {
                            Ok(releases) => {
                                lemma_expand_preserves(taken, entry, releases);
                                if taken.selection(entry, releases) is Ok {
                                    lemma_expand_selects(taken, entry, releases);
                                    assert(names_of(taken.expand(entry, releases).chosen) =~= now);
                                }
                            },
                            Err(_) => {},
                        }
                    },
                    None => {},
                }
            },
            Err(_) => {},
        }
    }
}

/// The view of how a resolution ended.
pub open spec fn run_outcome_view(outcome: Result<ResolveRun, ResolveError>) -> Result<
    RunView,
    ResolveErrorView,
> {
    match outcome {
        Ok(run) => Ok(run@),
        Err(error) => Err(error@),
    }
}

fn find_metadata(table: &Vec<PackageMetadata>, name: &str) -> (r: Option<usize>)
    ensures
        match r {
            Some(k) => k < table.len() && metadata_index_from(table_view(table@), name@, 0)
                == Some(k as int) && table@[k as int]@.name == name@,
            None => metadata_index_from(table_view(table@), name@, 0) is None,
        },
{
    let mut i: usize = 0;
    while i < table.len()
        invariant
            i <= table.len(),
            metadata_index_from(table_view(table@), name@, 0) == metadata_index_from(
                table_view(table@),
                name@,
                i as int,
            ),
        decreases table.len() - i,
    {
        if same_text(table[i].name.as_str(), name) {
            assert(table_view(table@)[i as int].name == name@);
            return Some(i);
        }
        assert(table_view(table@)[i as int].name != name@);
        i += 1;
    }
    None
}

/// Resolves `request` against `table`: walks the dependency graph from the
/// root, breadth first, until nothing is pending, and returns the run with
/// its plan; or the error that gave the run up.
pub fn resolve(request: &ResolveRequest, table: &Vec<PackageMetadata>) -> (outcome: Result<
    ResolveRun,
    ResolveError,
>)
    ensures
        resolved(
            request.root_mod@,
            request.version@,
            table_view(table@),
            run_outcome_view(outcome),
        ),
        match outcome {
            Ok(run) => run@.wf(),
            Err(_) => true,
        },
{
    let ghost start = RunView::start(request.root_mod@, request.version@);
    let ghost answers = table_view(table@);
    let ghost mut n: nat = 0;
    let mut run = ResolveRun::new(request.root_mod.clone(), request.version.clone());
    loop
        invariant
            start == RunView::start(request.root_mod@, request.version@),
            answers == table_view(table@),
            run@.wf(),
            rounds(start, answers, n) == Ok::<RunView, ResolveErrorView>(run@),
        decreases unprocessed(answers, run@.chosen),
    {
        let ghost before = run@;
        match run.next_pending() {
            Some(entry) => {
                let ghost taken = run@;
                match find_metadata(table, entry.name.as_str()) {
                    Some(k) => {
                        assert(answers[k as int] == table@[k as int]@);
                        match &table[k].fetched {
                            Ok(releases) => {
                                proof {
                                    lemma_expand_preserves(taken, entry@, releases_view(releases@));
                                }
                                match run.expand(&entry, releases) {
                                    Ok(_) => {
                                        proof {
                                            lemma_expand_selects(
                                                taken,
                                                entry@,
                                                releases_view(releases@),
                                            );
                                            lemma_unprocessed_push(
                                                answers,
                                                taken.chosen,
                                                run@.chosen.last(),
                                            );
                                            assert(round(before, answers) == Ok::<
                                                RunView,
                                                ResolveErrorView,
                                            >(run@));
                                            n = n + 1;
                                        }
                                    },
                                    Err(error) => {
                                        proof {
                                            assert(round(before, answers) == Err::<
                                                RunView,
                                                ResolveErrorView,
                                            >(error@));
                                            assert(rounds(start, answers, n + 1) == Err::<
                                                RunView,
                                                ResolveErrorView,
                                            >(error@));
                                        }
                                        return Err(error);
                                    },
                                }
                            },
                            Err(cause) => {
                                let error = run.fetch_failed(&entry, cause.clone());
                                proof {
                                    assert(round(before, answers) == Err::<
                                        RunView,
                                        ResolveErrorView,
                                    >(error@));
                                    assert(rounds(start, answers, n + 1) == Err::<
                                        RunView,
                                        ResolveErrorView,
                                    >(error@));
                                }
                                return Err(error);
                            },
                        }
                    },
                    None => {
                        let error = run.fetch_failed(
                            &entry,
                            String::from_str(UNKNOWN_PACKAGE_CAUSE),
                        );
                        proof {
                            assert(round(before, answers) == Err::<RunView, ResolveErrorView>(
                                error@,
                            ));
                            assert(rounds(start, answers, n + 1) == Err::<
                                RunView,
                                ResolveErrorView,
                            >(error@));
                        }
                        return Err(error);
                    },
                }
            },
            None => {
                proof {
                    assert(round(before, answers) == Ok::<RunView, ResolveErrorView>(run@));
                    assert(rounds(start, answers, n + 1) == Ok::<RunView, ResolveErrorView>(run@));
                }
                return Ok(run);
            },
        }
    }
}

/// Whether the queue `after` and the number `total` are what a resolution
/// that ended with `outcome` leaves: after a run that came to its end, the
/// queue with each chosen release enqueued in turn, and the number of those
/// releases; after an error, the queue as it was.
pub open spec fn resolution_enqueued(
    before: QueueView,
    profile_name: Seq<char>,
    outcome: Result<RunView, ResolveErrorView>,
    after: QueueView,
    total: Result<usize, ResolveErrorView>,
) -> bool {
    match outcome {
        Ok(run) => total == Ok::<usize, ResolveErrorView>(run.chosen.len() as usize)
            && exists|results: Seq<(Seq<char>, Option<ItemView>)>| #[trigger]
            plan_enqueued(before, run.chosen, profile_name, results, after),
        Err(error) => total == Err::<usize, ResolveErrorView>(error) && after == before,
    }
}

/// The view of the number of entries that a resolution enqueued, or of the
/// error that gave it up.
pub open spec fn total_view(total: Result<usize, ResolveError>) -> Result<usize, ResolveErrorView> {
    match total {
        Ok(total) => Ok(total),
        Err(error) => Err(error@),
    }
}

/// Resolves `request` against `table` and hands the plan to `queue`: one
/// release for the root and for each package that it depends on, directly
/// or indirectly. Returns the number of entries that were enqueued. Where
/// the run is given up, nothing is enqueued.
pub fn resolve_and_enqueue_dependencies(
    queue: &mut DownloadQueueManager,
    request: &ResolveRequest,
    table: &Vec<PackageMetadata>,
) -> (total: Result<usize, ResolveError>)
    ensures
        exists|outcome: Result<RunView, ResolveErrorView>| #[trigger]
            resolved(request.root_mod@, request.version@, table_view(table@), outcome)
                && resolution_enqueued(
                old(queue)@,
                request.profile_name@,
                outcome,
                final(queue)@,
                total_view(total),
            ),
        old(queue)@.wf() ==> final(queue)@.wf(),
{
    match resolve(request, table) {
        Ok(run) => {
            let plan = run.plan();
            let results = enqueue_plan(queue, &plan, request.profile_name.as_str());
            proof {
                let outcome = Ok::<RunView, ResolveErrorView>(run@);
                assert(plan_enqueued(
                    old(queue)@,
                    run@.chosen,
                    request.profile_name@,
                    results_view(results@),
                    queue@,
                ));
                assert(resolution_enqueued(
                    old(queue)@,
                    request.profile_name@,
                    outcome,
                    queue@,
                    Ok::<usize, ResolveErrorView>(plan.len()),
                ));
                assert(resolved(
                    request.root_mod@,
                    request.version@,
                    table_view(table@),
                    outcome,
                ));
            }
            Ok(plan.len())
        },
        Err(error) => {
            proof {
                let outcome = Err::<RunView, ResolveErrorView>(error@);
                assert(resolution_enqueued(
                    old(queue)@,
                    request.profile_name@,
                    outcome,
                    queue@,
                    Err::<usize, ResolveErrorView>(error@),
                ));
                assert(resolved(
                    request.root_mod@,
                    request.version@,
                    table_view(table@),
                    outcome,
                ));
            }
            Err(error)
        },
    }
}

} // verus!
