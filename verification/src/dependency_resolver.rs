//! The dependency resolver: the decisions of a breadth-first walk over the
//! dependency graph of a root package.
//!
//! The resolver does not fetch anything itself. Its caller takes the next
//! pending entry with [`ResolveRun::next_pending`], fetches the releases of
//! that package, and hands them to [`ResolveRun::expand`], which selects one
//! release and queues its dependencies. When nothing is pending any more,
//! [`ResolveRun::plan`] holds one release for the root and for each package
//! that it depends on, and [`enqueue_plan`] hands them to the download queue.

use crate::dependency::parse_dependency;
use crate::download_queue::{
    launch_view, DownloadItem, DownloadQueueManager, ItemView, QueueView,
};
use crate::resolve_model::{
    exact_release_from, key_index, key_index_from, latest_compatible, lemma_expand_preserves,
    record_parent, record_requirement, FailureView, Pairs, PendingView, ProgressView, ReleaseView,
    ResolveErrorView, ResolveStage, RunView,
};
use crate::text::same_text;
use crate::version::version_higher;
use std::collections::VecDeque;
use vstd::prelude::*;
use vstd::string::StringExecFns;

verus! {

/// What a caller asks of the resolver.
#[derive(Debug, Clone)]
pub struct ResolveRequest {
    pub root_mod: String,
    pub version: String,
    pub profile_name: String,
}

/// One published version of a package.
#[derive(Debug)]
pub struct Release {
    pub version: String,
    pub released_at: String,
    /// The version of the platform that the release is made for.
    pub factorio_version: String,
    /// The raw dependency declarations, where the release has any.
    pub dependencies: Option<Vec<String>>,
}

/// One entry of the work queue.
#[derive(Debug)]
pub struct PendingEntry {
    pub name: String,
    pub requirement: String,
    pub parent: Option<String>,
    pub parent_platform: Option<String>,
}

/// Why a run is given up.
#[derive(Debug)]
pub enum Failure {
    Fetch(String),
    VersionNotFound,
    NoCompatibleRelease(String),
    MissingParentPlatform,
}

/// The error that gives up a run: what went wrong, at which package, for
/// which requirement, and which package brought it in, where that is known.
#[derive(Debug)]
pub struct ResolveError {
    pub kind: Failure,
    pub mod_name: String,
    pub requirement: String,
    pub parent_mod: Option<String>,
}

/// The counts of a run after one entry is dealt with.
#[derive(Debug)]
pub struct ResolveProgress {
    pub name: String,
    pub requirement: String,
    pub processed: usize,
    pub discovered: usize,
    pub pending: usize,
}

/// The state of one run of the resolver.
#[derive(Debug)]
pub struct ResolveRun {
    pub root_mod: String,
    pub version: String,
    /// For each package that was asked for, the highest minimum version.
    pub required: Vec<(String, String)>,
    /// For each package that was expanded, the version of its release.
    pub chosen: Vec<(String, String)>,
    /// For each dependency, the package that asked for it first.
    pub parents: Vec<(String, String)>,
    /// The work queue.
    pub pending: VecDeque<PendingEntry>,
}

/// The view of a text that may be absent.
pub open spec fn text_view(text: Option<String>) -> Option<Seq<char>> {
    match text {
        Some(text) => Some(text@),
        None => None,
    }
}

/// The views of a sequence of texts.
pub open spec fn texts_view(texts: Seq<String>) -> Seq<Seq<char>> {
    Seq::new(texts.len(), |i: int| texts[i]@)
}

/// The view of an association list.
pub open spec fn pairs_view(entries: Seq<(String, String)>) -> Pairs {
    Seq::new(entries.len(), |i: int| (entries[i].0@, entries[i].1@))
}

impl View for Release {
    type V = ReleaseView;

    open spec fn view(&self) -> ReleaseView {
        ReleaseView {
            version: self.version@,
            released_at: self.released_at@,
            factorio_version: self.factorio_version@,
            dependencies: match self.dependencies {
                Some(declared) => Some(texts_view(declared@)),
                None => None,
            },
        }
    }
}

/// The views of a sequence of releases.
pub open spec fn releases_view(releases: Seq<Release>) -> Seq<ReleaseView> {
    Seq::new(releases.len(), |i: int| releases[i]@)
}

impl View for PendingEntry {
    type V = PendingView;

    open spec fn view(&self) -> PendingView {
        PendingView {
            name: self.name@,
            requirement: self.requirement@,
            parent: text_view(self.parent),
            parent_platform: text_view(self.parent_platform),
        }
    }
}

/// The views of a sequence of pending entries.
pub open spec fn pending_view(entries: Seq<PendingEntry>) -> Seq<PendingView> {
    Seq::new(entries.len(), |i: int| entries[i]@)
}

/// The view of a pending entry that may be absent.
pub open spec fn entry_view(entry: Option<PendingEntry>) -> Option<PendingView> {
    match entry {
        Some(entry) => Some(entry@),
        None => None,
    }
}

impl View for Failure {
    type V = FailureView;

    open spec fn view(&self) -> FailureView {
        match self {
            Failure::Fetch(cause) => FailureView::Fetch(cause@),
            Failure::VersionNotFound => FailureView::VersionNotFound,
            Failure::NoCompatibleRelease(platform) => FailureView::NoCompatibleRelease(platform@),
            Failure::MissingParentPlatform => FailureView::MissingParentPlatform,
        }
    }
}

impl View for ResolveError {
    type V = ResolveErrorView;

    open spec fn view(&self) -> ResolveErrorView {
        ResolveErrorView {
            kind: self.kind@,
            mod_name: self.mod_name@,
            requirement: self.requirement@,
            parent_mod: text_view(self.parent_mod),
        }
    }
}

impl View for ResolveProgress {
    type V = ProgressView;

    open spec fn view(&self) -> ProgressView {
        ProgressView {
            name: self.name@,
            requirement: self.requirement@,
            processed: self.processed as nat,
            discovered: self.discovered as nat,
            pending: self.pending as nat,
        }
    }
}

impl View for ResolveRun {
    type V = RunView;

    open spec fn view(&self) -> RunView {
        RunView {
            root_mod: self.root_mod@,
            version: self.version@,
            required: pairs_view(self.required@),
            chosen: pairs_view(self.chosen@),
            parents: pairs_view(self.parents@),
            pending: pending_view(self.pending@),
        }
    }
}

/// The view of what an expansion reports.
pub open spec fn outcome_view(outcome: Result<ResolveProgress, ResolveError>) -> Result<
    ProgressView,
    ResolveErrorView,
> {
    match outcome {
        Ok(progress) => Ok(progress@),
        Err(error) => Err(error@),
    }
}

/// The view of what the queue answered for each entry of a plan: the
/// identifier that the entry got, and the item that was admitted, if any.
pub open spec fn results_view(results: Seq<(String, Option<DownloadItem>)>) -> Seq<
    (Seq<char>, Option<ItemView>),
> {
    Seq::new(results.len(), |i: int| (results[i].0@, launch_view(results[i].1)))
}

/// Whether `states` are the queues that the direct enqueue of each entry of
/// `plan` in turn, for `profile_name`, leads through, with `results` as the
/// queue's answers.
pub open spec fn plan_trace(
    plan: Pairs,
    profile_name: Seq<char>,
    results: Seq<(Seq<char>, Option<ItemView>)>,
    states: Seq<QueueView>,
) -> bool {
    &&& results.len() == plan.len()
    &&& states.len() == plan.len() + 1
    &&& forall|i: int|
        0 <= i < plan.len() ==> (#[trigger] states[i]).enqueued_direct_as(
            results[i].0,
            plan[i].0,
            plan[i].1,
            profile_name,
            states[i + 1],
            results[i].1,
        )
}

/// Whether the direct enqueue of each entry of `plan` in turn, for
/// `profile_name`, leads from the queue `before` to the queue `after`, with
/// `results` as the queue's answers.
pub open spec fn plan_enqueued(
    before: QueueView,
    plan: Pairs,
    profile_name: Seq<char>,
    results: Seq<(Seq<char>, Option<ItemView>)>,
    after: QueueView,
) -> bool {
    exists|states: Seq<QueueView>| #[trigger]
        plan_trace(plan, profile_name, results, states) && states[0] == before && states.last()
            == after
}

/// Hands every entry of `plan` to the direct enqueue of `queue`, in order,
/// for the profile `profile_name`. Returns, for each entry, the identifier
/// that it got and the item that was admitted with it, if any.
pub fn enqueue_plan(
    queue: &mut DownloadQueueManager,
    plan: &Vec<(String, String)>,
    profile_name: &str,
) -> (results: Vec<(String, Option<DownloadItem>)>)
    ensures
        plan_enqueued(
            old(queue)@,
            pairs_view(plan@),
            profile_name@,
            results_view(results@),
            final(queue)@,
        ),
        results.len() == plan.len(),
        old(queue)@.wf() ==> final(queue)@.wf(),
{
    let ghost entries = pairs_view(plan@);
    let ghost mut states: Seq<QueueView> = seq![queue@];
    let mut results: Vec<(String, Option<DownloadItem>)> = Vec::new();
    let mut i: usize = 0;
    while i < plan.len()
        invariant
            i <= plan.len(),
            entries == pairs_view(plan@),
            results.len() == i,
            states.len() == i + 1,
            states[0] == old(queue)@,
            states.last() == queue@,
            forall|k: int|
                0 <= k < i ==> (#[trigger] states[k]).enqueued_direct_as(
                    results_view(results@)[k].0,
                    entries[k].0,
                    entries[k].1,
                    profile_name@,
                    states[k + 1],
                    results_view(results@)[k].1,
                ),
            old(queue)@.wf() ==> queue@.wf(),
        decreases plan.len() - i,
    {
        let ghost answered = results_view(results@);
        let ghost reached = states;
        let (id, effect) = queue.enqueue_item_direct(
            plan[i].0.clone(),
            plan[i].1.clone(),
            String::from_str(profile_name),
        );
        results.push((id, effect.launch));
        proof {
            states = states.push(queue@);
            assert(entries[i as int] == (plan@[i as int].0@, plan@[i as int].1@));
            assert(results_view(results@)[i as int] == (id@, launch_view(effect.launch)));
            assert forall|k: int| 0 <= k < i + 1 implies (#[trigger] states[k]).enqueued_direct_as(
                results_view(results@)[k].0,
                entries[k].0,
                entries[k].1,
                profile_name@,
                states[k + 1],
                results_view(results@)[k].1,
            ) by {
                if k < i {
                    assert(states[k] == reached[k]);
                    assert(states[k + 1] == reached[k + 1]);
                    assert(results_view(results@)[k] == answered[k]);
                }
            }
        }
        i += 1;
    }
    assert(plan_trace(entries, profile_name@, results_view(results@), states));
    results
}

/// The number of dependencies in a plan of `total` entries: all of them but
/// the root.
pub fn dependency_count(total: usize) -> (count: usize)
    ensures
        count == if total > 0 {
            total - 1
        } else {
            0
        },
{
    if total > 0 {
        total - 1
    } else {
        0
    }
}

impl ResolveStage {
    /// The name under which the stage is reported.
    pub fn name(&self) -> (name: &'static str)
        ensures
            name@ == match *self {
                ResolveStage::Fetch => "fetch"@,
                ResolveStage::SelectRelease => "select_release"@,
            },
    {
        match self {
            ResolveStage::Fetch => "fetch",
            ResolveStage::SelectRelease => "select_release",
        }
    }
}

impl ResolveError {
    /// The stage at which the error arose.
    pub fn stage(&self) -> (stage: ResolveStage)
        ensures
            stage == self@.stage(),
    {
        match self.kind {
            Failure::Fetch(_) => ResolveStage::Fetch,
            _ => ResolveStage::SelectRelease,
        }
    }

    fn push_parent_note(&self, text: &mut String)
        ensures
            final(text)@ == old(text)@ + self@.parent_note(),
    {
        match &self.parent_mod {
            Some(parent) => {
                let ghost before = text@;
                text.push_str(" (pai '");
                text.push_str(parent.as_str());
                text.push_str("')");
                assert(text@ =~= before + (" (pai '"@ + parent@ + "')"@));
            },
            None => {
                assert(text@ =~= text@ + Seq::<char>::empty());
            },
        }
    }

    fn push_context_note(&self, text: &mut String)
        ensures
            final(text)@ == old(text)@ + self@.context_note(),
    {
        let ghost before = text@;
        text.push_str(" (requisito '");
        text.push_str(self.requirement.as_str());
        match &self.parent_mod {
            Some(parent) => {
                text.push_str("', pai '");
                text.push_str(parent.as_str());
                text.push_str("')");
                assert(text@ =~= before + (" (requisito '"@ + self.requirement@ + "', pai '"@
                    + parent@ + "')"@));
            },
            None => {
                text.push_str("')");
                assert(text@ =~= before + (" (requisito '"@ + self.requirement@ + "')"@));
            },
        }
    }

    /// The error as a sentence for the user: it names the package, what was
    /// asked of it, and the package that brought it in, where that is known.
    pub fn message(&self) -> (text: String)
        ensures
            text@ == self@.message(),
    {
        match &self.kind {
            Failure::Fetch(cause) => {
                let mut text = String::from_str("Falha ao buscar metadados do mod '");
                text.push_str(self.mod_name.as_str());
                text.push_str("'");
                self.push_context_note(&mut text);
                text.push_str(": ");
                text.push_str(cause.as_str());
                text
            },
            Failure::VersionNotFound => {
                let mut text = String::from_str("Versão ");
                text.push_str(self.requirement.as_str());
                text.push_str(" não encontrada para ");
                text.push_str(self.mod_name.as_str());
                self.push_parent_note(&mut text);
                text
            },
            Failure::NoCompatibleRelease(platform) => {
                let mut text = String::from_str("Nenhuma versão encontrada para ");
                text.push_str(self.mod_name.as_str());
                text.push_str(" compatível com Factorio ");
                text.push_str(platform.as_str());
                self.push_context_note(&mut text);
                text
            },
            Failure::MissingParentPlatform => {
                let mut text = String::from_str("Dependência '");
                text.push_str(self.mod_name.as_str());
                text.push_str("' não recebeu versão do Factorio do pai");
                self.push_context_note(&mut text);
                text
            },
        }
    }
}

fn find_key(entries: &Vec<(String, String)>, key: &str) -> (r: Option<usize>)
    ensures
        match r {
            Some(i) => i < entries.len() && key_index(pairs_view(entries@), key@) == Some(i as int)
                && entries@[i as int].0@ == key@,
            None => key_index(pairs_view(entries@), key@) is None,
        },
{
    let mut i: usize = 0;
    while i < entries.len()
        invariant
            i <= entries.len(),
            key_index(pairs_view(entries@), key@) == key_index_from(
                pairs_view(entries@),
                key@,
                i as int,
            ),
        decreases entries.len() - i,
    {
        if same_text(entries[i].0.as_str(), key) {
            assert(pairs_view(entries@)[i as int].0 == key@);
            return Some(i);
        }
        assert(pairs_view(entries@)[i as int].0 != key@);
        i += 1;
    }
    None
}

fn record_req(required: &mut Vec<(String, String)>, name: &str, version: &str)
    ensures
        pairs_view(final(required)@) == record_requirement(
            pairs_view(old(required)@),
            name@,
            version@,
        ),
{
    match find_key(required, name) {
        Some(i) => {
            if version_higher(version, required[i].1.as_str()) {
                required[i].1 = String::from_str(version);
                assert(pairs_view(required@) =~= pairs_view(old(required)@).update(
                    i as int,
                    (name@, version@),
                ));
            }
        },
        None => {
            required.push((String::from_str(name), String::from_str(version)));
            assert(pairs_view(required@) =~= pairs_view(old(required)@).push((name@, version@)));
        },
    }
}

fn record_first_parent(parents: &mut Vec<(String, String)>, name: &str, parent: &str)
    ensures
        pairs_view(final(parents)@) == record_parent(pairs_view(old(parents)@), name@, parent@),
{
    match find_key(parents, name) {
        Some(_) => {},
        None => {
            parents.push((String::from_str(name), String::from_str(parent)));
            assert(pairs_view(parents@) =~= pairs_view(old(parents)@).push((name@, parent@)));
        },
    }
}

fn find_exact(releases: &Vec<Release>, version: &str) -> (r: Option<usize>)
    ensures
        match r {
            Some(k) => k < releases.len() && exact_release_from(
                releases_view(releases@),
                version@,
                0,
            ) == Some(k as int),
            None => exact_release_from(releases_view(releases@), version@, 0) is None,
        },
{
    let mut i: usize = 0;
    while i < releases.len()
        invariant
            i <= releases.len(),
            exact_release_from(releases_view(releases@), version@, 0) == exact_release_from(
                releases_view(releases@),
                version@,
                i as int,
            ),
        decreases releases.len() - i,
    {
        if same_text(releases[i].version.as_str(), version) {
            assert(releases_view(releases@)[i as int].version == version@);
            return Some(i);
        }
        assert(releases_view(releases@)[i as int].version != version@);
        i += 1;
    }
    None
}

fn find_latest_compatible(releases: &Vec<Release>, platform: &str) -> (r: Option<usize>)
    ensures
        match r {
            Some(k) => k < releases.len() && latest_compatible(
                releases_view(releases@),
                platform@,
            ) == Some(k as int),
            None => latest_compatible(releases_view(releases@), platform@) is None,
        },
{
    let ghost all = releases_view(releases@);
    let mut best: Option<usize> = None;
    let mut i: usize = 0;
    assert(all.take(0) == Seq::<ReleaseView>::empty());
    while i < releases.len()
        invariant
            i <= releases.len(),
            all == releases_view(releases@),
            match best {
                Some(k) => k < i && latest_compatible(all.take(i as int), platform@) == Some(
                    k as int,
                ),
                None => latest_compatible(all.take(i as int), platform@) is None,
            },
        decreases releases.len() - i,
    {
        proof {
            assert(all.take(i + 1).drop_last() == all.take(i as int));
            assert(all.take(i + 1)[i as int] == all[i as int]);
        }
        if same_text(releases[i].factorio_version.as_str(), platform) {
            match best {
                Some(k) => {
                    assert(all.take(i + 1)[k as int] == all[k as int]);
                    if !version_higher(releases[k].version.as_str(), releases[i].version.as_str()) {
                        best = Some(i);
                    }
                },
                None => {
                    best = Some(i);
                },
            }
        }
        i += 1;
    }
    assert(all.take(i as int) == all);
    best
}

impl ResolveRun {
    /// A run for `root_mod` at exactly `version`: the root is pending, and
    /// required at that version.
    pub fn new(root_mod: String, version: String) -> (run: Self)
        ensures
            run@ == RunView::start(root_mod@, version@),
            run@.wf(),
    {
        let mut required: Vec<(String, String)> = Vec::new();
        required.push((root_mod.clone(), version.clone()));
        let mut pending: VecDeque<PendingEntry> = VecDeque::new();
        pending.push_back(
            PendingEntry {
                name: root_mod.clone(),
                requirement: version.clone(),
                parent: None,
                parent_platform: None,
            },
        );
        let run = ResolveRun {
            root_mod,
            version,
            required,
            chosen: Vec::new(),
            parents: Vec::new(),
            pending,
        };
        proof {
            let start = RunView::start(root_mod@, version@);
            assert(run@.required =~= start.required);
            assert(run@.chosen =~= start.chosen);
            assert(run@.parents =~= start.parents);
            assert(run@.pending =~= start.pending);
        }
        run
    }

    /// Whether a release was selected for `name` already.
    pub fn is_processed(&self, name: &str) -> (b: bool)
        ensures
            b == self@.is_processed(name@),
    {
        find_key(&self.chosen, name).is_some()
    }

    /// Takes the next entry to expand from the work queue. Entries for
    /// packages that are processed already are discarded on the way. `None`
    /// says that the run is complete.
    pub fn next_pending(&mut self) -> (entry: Option<PendingEntry>)
        ensures
            entry_view(entry) == old(self)@.next_entry(),
            final(self)@ == old(self)@.after_next(),
            match entry {
                Some(entry) => !final(self)@.is_processed(entry@.name),
                None => final(self)@.pending.len() == 0,
            },
    {
        let ghost before = self@;
        let ghost mut n: int = 0;
        assert(before.pending.skip(0) == before.pending);
        loop
            invariant
                0 <= n <= before.pending.len(),
                before == old(self)@,
                self@ == (RunView { pending: before.pending.skip(n), ..before }),
                before.stale_from(0) == n + before.stale_from(n),
            decreases self.pending.len(),
        {
            let ghost queued = self.pending@;
            match self.pending.pop_front() {
                Some(entry) => {
                    proof {
                        assert(pending_view(queued).len() == queued.len());
                        assert(pending_view(queued)[0] == queued[0]@);
                        assert(before.pending.skip(n)[0] == before.pending[n]);
                        assert(entry@ == before.pending[n]);
                        assert(self@.pending =~= before.pending.skip(n + 1)) by {
                            assert forall|j: int| 0 <= j < self@.pending.len() implies self@.pending[j]
                                == before.pending.skip(n + 1)[j] by {
                                assert(self.pending@[j] == queued[j + 1]);
                                assert(pending_view(queued)[j + 1] == queued[j + 1]@);
                            }
                        }
                    }
                    if !self.is_processed(entry.name.as_str()) {
                        return Some(entry);
                    }
                    proof {
                        n = n + 1;
                    }
                },
                None => {
                    proof {
                        assert(pending_view(queued).len() == queued.len());
                        assert(self@.pending =~= Seq::<PendingView>::empty());
                        assert(n == before.pending.len());
                    }
                    return None;
                },
            }
        }
    }

    fn introducer(&self, entry: &PendingEntry) -> (parent: Option<String>)
        ensures
            text_view(parent) == self@.introducer(entry@),
    {
        match &entry.parent {
            Some(parent) => Some(parent.clone()),
            None => match find_key(&self.parents, entry.name.as_str()) {
                Some(i) => Some(self.parents[i].1.clone()),
                None => None,
            },
        }
    }

    fn failure(&self, entry: &PendingEntry, kind: Failure) -> (error: ResolveError)
        ensures
            error@ == self@.failure(entry@, kind@),
    {
        ResolveError {
            kind,
            mod_name: entry.name.clone(),
            requirement: entry.requirement.clone(),
            parent_mod: self.introducer(entry),
        }
    }

    /// The error that gives up the run because the releases of `entry`'s
    /// package could not be fetched.
    pub fn fetch_failed(&self, entry: &PendingEntry, cause: String) -> (error: ResolveError)
        ensures
            error@ == self@.failure(entry@, FailureView::Fetch(cause@)),
    {
        self.failure(entry, Failure::Fetch(cause))
    }

    fn select(&self, entry: &PendingEntry, releases: &Vec<Release>) -> (r: Result<usize, Failure>)
        ensures
            match r {
                Ok(k) => k < releases.len() && self@.selection(entry@, releases_view(releases@))
                    == Ok::<int, FailureView>(k as int),
                Err(kind) => self@.selection(entry@, releases_view(releases@)) == Err::<
                    int,
                    FailureView,
                >(kind@),
            },
    {
        if same_text(entry.name.as_str(), self.root_mod.as_str()) && same_text(
            entry.requirement.as_str(),
            self.version.as_str(),
        ) {
            match find_exact(releases, entry.requirement.as_str()) {
                Some(k) => Ok(k),
                None => Err(Failure::VersionNotFound),
            }
        } else {
            match &entry.parent_platform {
                Some(platform) => match find_latest_compatible(releases, platform.as_str()) {
                    Some(k) => Ok(k),
                    None => Err(Failure::NoCompatibleRelease(platform.clone())),
                },
                None => Err(Failure::MissingParentPlatform),
            }
        }
    }

    fn add_dependencies(&mut self, name: &str, platform: &str, declared: &Vec<String>)
        ensures
            final(self)@ == old(self)@.with_dependencies(name@, platform@, texts_view(declared@)),
    {
        let ghost before = self@;
        let ghost all = texts_view(declared@);
        let mut i: usize = 0;
        assert(all.take(0) == Seq::<Seq<char>>::empty());
        while i < declared.len()
            invariant
                i <= declared.len(),
                all == texts_view(declared@),
                self@ == before.with_dependencies(name@, platform@, all.take(i as int)),
            decreases declared.len() - i,
        {
            let ghost current = self@;
            proof {
                assert(all.take(i + 1).drop_last() == all.take(i as int));
                assert(all.take(i + 1).last() == declared@[i as int]@);
            }
            match parse_dependency(declared[i].as_str()) {
                Some(dependency) => {
                    let (dependency_name, minimum) = dependency;
                    record_req(&mut self.required, dependency_name.as_str(), minimum.as_str());
                    record_first_parent(&mut self.parents, dependency_name.as_str(), name);
                    self.pending.push_back(
                        PendingEntry {
                            name: dependency_name,
                            requirement: minimum,
                            parent: Some(String::from_str(name)),
                            parent_platform: Some(String::from_str(platform)),
                        },
                    );
                    proof {
                        let after = current.with_dependency(
                            name@,
                            platform@,
                            (dependency_name@, minimum@),
                        );
                        assert(self@.pending =~= after.pending);
                        assert(self@ == after);
                    }
                },
                None => {},
            }
            i += 1;
        }
        assert(all.take(i as int) == all);
    }

    fn progress(&self, entry: &PendingEntry) -> (report: ResolveProgress)
        ensures
            report@ == self@.progress(entry@),
    {
        ResolveProgress {
            name: entry.name.clone(),
            requirement: entry.requirement.clone(),
            processed: self.chosen.len(),
            discovered: self.required.len(),
            pending: self.pending.len(),
        }
    }

    /// Expands `entry` with the releases of its package: selects the release,
    /// records it as chosen, and records and queues the dependencies that the
    /// release declares. An entry for a package that is processed already
    /// changes nothing. Where no release can be selected the run is given up:
    /// the error says why, and nothing is changed.
    pub fn expand(&mut self, entry: &PendingEntry, releases: &Vec<Release>) -> (outcome: Result<
        ResolveProgress,
        ResolveError,
    >)
        ensures
            final(self)@ == old(self)@.expand(entry@, releases_view(releases@)),
            outcome_view(outcome) == old(self)@.expand_outcome(entry@, releases_view(releases@)),
            old(self)@.wf() ==> final(self)@.wf(),
    {
        proof {
            if self@.wf() {
                lemma_expand_preserves(self@, entry@, releases_view(releases@));
            }
        }
        if self.is_processed(entry.name.as_str()) {
            return Ok(self.progress(entry));
        }
        match self.select(entry, releases) {
            Ok(k) => {
                let release = &releases[k];
                assert(release@ == releases_view(releases@)[k as int]);
                self.chosen.push((entry.name.clone(), release.version.clone()));
                assert(self@.chosen =~= old(self)@.chosen.push((entry@.name, release@.version)));
                match &release.dependencies {
                    Some(declared) => {
                        self.add_dependencies(
                            entry.name.as_str(),
                            release.factorio_version.as_str(),
                            declared,
                        );
                    },
                    None => {},
                }
                Ok(self.progress(entry))
            },
            Err(kind) => Err(self.failure(entry, kind)),
        }
    }

    /// The plan: for each package that was expanded, the version of the
    /// release that was selected for it, in the order of selection. The root
    /// comes first.
    pub fn plan(&self) -> (plan: Vec<(String, String)>)
        ensures
            pairs_view(plan@) == self@.chosen,
    {
        let mut plan: Vec<(String, String)> = Vec::new();
        let mut i: usize = 0;
        while i < self.chosen.len()
            invariant
                i <= self.chosen.len(),
                pairs_view(plan@) == self@.chosen.take(i as int),
            decreases self.chosen.len() - i,
        {
            let ghost copied = plan@;
            plan.push((self.chosen[i].0.clone(), self.chosen[i].1.clone()));
            assert(pairs_view(plan@) =~= pairs_view(copied).push(self@.chosen[i as int]));
            assert(self@.chosen.take(i as int).push(self@.chosen[i as int]) =~= self@.chosen.take(
                i + 1,
            ));
            i += 1;
        }
        assert(self@.chosen.take(i as int) == self@.chosen);
        plan
    }
}

} // verus!
