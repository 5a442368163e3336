//! The mathematical model of one dependency resolution.
//!
//! A run walks the dependency graph breadth first. It keeps a work queue of
//! pending entries and three association lists, each from a package name to
//! a text: the highest minimum version that was asked of the package
//! (`required`), the release that was selected for it (`chosen`), and the
//! package that first asked for it (`parents`). A package is expanded at most
//! once in a run: the first entry that is taken from the queue for it decides
//! on its release, later ones are discarded.
//!
//! The selection goes by the platform version of the parent's release and
//! never looks at `required`: that list is bookkeeping only.

use crate::dependency::dependency_of;
use crate::text::occurs_at;
use crate::version::{
    lemma_version_sign_antisymmetric, lemma_version_sign_transitive, version_sign,
};
use vstd::prelude::*;

verus! {

/// An association list from names to texts.
pub type Pairs = Seq<(Seq<char>, Seq<char>)>;

/// The least index at or after `from` of an entry with key `key`.
pub open spec fn key_index_from(entries: Pairs, key: Seq<char>, from: int) -> Option<int>
    decreases entries.len() - from,
{
    if from < 0 || from >= entries.len() {
        None
    } else if entries[from].0 == key {
        Some(from)
    } else {
        key_index_from(entries, key, from + 1)
    }
}

/// The index of the first entry with key `key`.
pub open spec fn key_index(entries: Pairs, key: Seq<char>) -> Option<int> {
    key_index_from(entries, key, 0)
}

/// Whether some entry has key `key`.
pub open spec fn has_key(entries: Pairs, key: Seq<char>) -> bool {
    key_index(entries, key) is Some
}

/// The text that `key` is associated with.
pub open spec fn lookup(entries: Pairs, key: Seq<char>) -> Option<Seq<char>> {
    match key_index(entries, key) {
        Some(i) => Some(entries[i].1),
        None => None,
    }
}

/// Whether no key occurs twice.
pub open spec fn unique_keys(entries: Pairs) -> bool {
    forall|i: int, j: int|
        0 <= i < j < entries.len() ==> (#[trigger] entries[i]).0 != (#[trigger] entries[j]).0
}

/// The mathematical view of a release.
pub struct ReleaseView {
    pub version: Seq<char>,
    pub released_at: Seq<char>,
    /// The version of the platform that the release is made for.
    pub factorio_version: Seq<char>,
    /// The raw dependency declarations, where the release has any.
    pub dependencies: Option<Seq<Seq<char>>>,
}

/// The mathematical view of an entry of the work queue.
pub struct PendingView {
    pub name: Seq<char>,
    /// The exact version asked for the root, the minimum version asked for a
    /// dependency.
    pub requirement: Seq<char>,
    /// The package whose release declared this dependency.
    pub parent: Option<Seq<char>>,
    /// The platform version of the parent's release.
    pub parent_platform: Option<Seq<char>>,
}

/// Why a run was given up.
pub enum FailureView {
    /// The metadata could not be fetched; the text is the cause.
    Fetch(Seq<char>),
    /// The root has no release with the version asked for.
    VersionNotFound,
    /// The package has no release for the platform version, which is given.
    NoCompatibleRelease(Seq<char>),
    /// A dependency came without the platform version of its parent.
    MissingParentPlatform,
}

/// The mathematical view of an error of the resolver.
pub struct ResolveErrorView {
    pub kind: FailureView,
    pub mod_name: Seq<char>,
    pub requirement: Seq<char>,
    pub parent_mod: Option<Seq<char>>,
}

/// The mathematical view of a progress report.
pub struct ProgressView {
    pub name: Seq<char>,
    pub requirement: Seq<char>,
    pub processed: nat,
    pub discovered: nat,
    pub pending: nat,
}

/// The part of the resolver's work at which a run can be given up.
#[derive(Clone, Copy, Debug, PartialEq, Eq, Structural)]
pub enum ResolveStage {
    /// Fetching the releases of a package.
    Fetch,
    /// Selecting one of the releases.
    SelectRelease,
}

impl ResolveErrorView {
    /// The stage at which the error arose.
    pub open spec fn stage(self) -> ResolveStage {
        match self.kind {
            FailureView::Fetch(_) => ResolveStage::Fetch,
            _ => ResolveStage::SelectRelease,
        }
    }

    /// What is said of the package that brought the failing one in, where it
    /// is known.
    pub open spec fn parent_note(self) -> Seq<char> {
        match self.parent_mod {
            Some(parent) => " (pai '"@ + parent + "')"@,
            None => Seq::empty(),
        }
    }

    /// What is said of the requirement and, where it is known, of the
    /// package that brought the failing one in.
    pub open spec fn context_note(self) -> Seq<char> {
        match self.parent_mod {
            Some(parent) => " (requisito '"@ + self.requirement + "', pai '"@ + parent + "')"@,
            None => " (requisito '"@ + self.requirement + "')"@,
        }
    }

    /// The error as a sentence for the user: it names the package, what was
    /// asked of it, and the package that brought it in, where that is known.
    pub open spec fn message(self) -> Seq<char> {
        match self.kind {
            FailureView::Fetch(cause) => "Falha ao buscar metadados do mod '"@ + self.mod_name
                + "'"@ + self.context_note() + ": "@ + cause,
            FailureView::VersionNotFound => "Versão "@ + self.requirement + " não encontrada para "@
                + self.mod_name + self.parent_note(),
            FailureView::NoCompatibleRelease(platform) => "Nenhuma versão encontrada para "@
                + self.mod_name + " compatível com Factorio "@ + platform + self.context_note(),
            FailureView::MissingParentPlatform => "Dependência '"@ + self.mod_name
                + "' não recebeu versão do Factorio do pai"@ + self.context_note(),
        }
    }
}

/// Whether `part` stands somewhere in `text`.
pub open spec fn holds(text: Seq<char>, part: Seq<char>) -> bool {
    exists|i: int| #[trigger] occurs_at(text, part, i)
}

proof fn lemma_holds_inside(before: Seq<char>, part: Seq<char>, after: Seq<char>)
    ensures
        holds(before + part + after, part),
{
    let text = before + part + after;
    assert(text.subrange(before.len() as int, (before.len() + part.len()) as int) =~= part);
    assert(occurs_at(text, part, before.len() as int));
}

proof fn lemma_holds_further(text: Seq<char>, part: Seq<char>, before: Seq<char>, after: Seq<char>)
    requires
        holds(text, part),
    ensures
        holds(before + text + after, part),
{
    let i = choose|i: int| #[trigger] occurs_at(text, part, i);
    let whole = before + text + after;
    assert(whole.subrange(before.len() + i, before.len() + i + part.len()) =~= text.subrange(
        i,
        i + part.len(),
    ));
    assert(occurs_at(whole, part, before.len() + i));
}

/// The sentence of an error names the package that failed, what was asked of
/// it, and the package that brought it in, where that is known.
pub proof fn lemma_message_names_all(error: ResolveErrorView)
    ensures
        holds(error.message(), error.mod_name),
        holds(error.message(), error.requirement),
        match error.parent_mod {
            Some(parent) => holds(error.message(), parent),
            None => true,
        },
{
    let empty = Seq::<char>::empty();
    let name = error.mod_name;
    let asked = error.requirement;
    let note = error.context_note();
    assert(holds(note, asked) && (error.parent_mod is Some ==> holds(
        note,
        error.parent_mod->0,
    ))) by {
        match error.parent_mod {
            Some(parent) => {
                lemma_holds_inside(" (requisito '"@, asked, "', pai '"@ + parent + "')"@);
                assert(" (requisito '"@ + asked + ("', pai '"@ + parent + "')"@) =~= note);
                lemma_holds_inside(" (requisito '"@ + asked + "', pai '"@, parent, "')"@);
            },
            None => {
                lemma_holds_inside(" (requisito '"@, asked, "')"@);
            },
        }
    }
    match error.kind {
        FailureView::Fetch(cause) => {
            let head = "Falha ao buscar metadados do mod '"@;
            lemma_holds_inside(head, name, "'"@ + note + ": "@ + cause);
            assert(head + name + ("'"@ + note + ": "@ + cause) =~= error.message());
            lemma_holds_further(note, asked, head + name + "'"@, ": "@ + cause);
            assert(head + name + "'"@ + note + (": "@ + cause) =~= error.message());
            if error.parent_mod is Some {
                lemma_holds_further(note, error.parent_mod->0, head + name + "'"@, ": "@ + cause);
            }
        },
        FailureView::VersionNotFound => {
            let tail = error.parent_note();
            lemma_holds_inside("Versão "@, asked, " não encontrada para "@ + name + tail);
            assert("Versão "@ + asked + (" não encontrada para "@ + name + tail)
                =~= error.message());
            lemma_holds_inside("Versão "@ + asked + " não encontrada para "@, name, tail);
            match error.parent_mod {
                Some(parent) => {
                    lemma_holds_inside(" (pai '"@, parent, "')"@);
                    lemma_holds_further(
                        tail,
                        parent,
                        "Versão "@ + asked + " não encontrada para "@ + name,
                        empty,
                    );
                    assert("Versão "@ + asked + " não encontrada para "@ + name + tail + empty
                        =~= error.message());
                },
                None => {},
            }
        },
        FailureView::NoCompatibleRelease(platform) => {
            let head = "Nenhuma versão encontrada para "@;
            let middle = " compatível com Factorio "@ + platform;
            lemma_holds_inside(head, name, middle + note);
            assert(head + name + (middle + note) =~= error.message());
            lemma_holds_further(note, asked, head + name + middle, empty);
            assert(head + name + middle + note + empty =~= error.message());
            if error.parent_mod is Some {
                lemma_holds_further(note, error.parent_mod->0, head + name + middle, empty);
            }
        },
        FailureView::MissingParentPlatform => {
            let head = "Dependência '"@;
            let middle = "' não recebeu versão do Factorio do pai"@;
            lemma_holds_inside(head, name, middle + note);
            assert(head + name + (middle + note) =~= error.message());
            lemma_holds_further(note, asked, head + name + middle, empty);
            assert(head + name + middle + note + empty =~= error.message());
            if error.parent_mod is Some {
                lemma_holds_further(note, error.parent_mod->0, head + name + middle, empty);
            }
        },
    }
}

proof fn lemma_same_frame(
    before: Seq<char>,
    first: Seq<char>,
    second: Seq<char>,
    after: Seq<char>,
)
    requires
        before + first + after == before + second + after,
    ensures
        first == second,
{
    let one = before + first + after;
    let other = before + second + after;
    assert(one.len() == other.len());
    assert forall|i: int| 0 <= i < first.len() implies first[i] == second[i] by {
        assert(one[before.len() + i] == first[i]);
        assert(other[before.len() + i] == second[i]);
    }
    assert(first =~= second);
}

/// The sentence of an error tells requirements apart: two errors of the
/// same kind for the same package, brought in by the same package, have the
/// same sentence only if the same was asked of the package.
pub proof fn lemma_message_tells_requirements_apart(one: ResolveErrorView, other: ResolveErrorView)
    requires
        one.kind == other.kind,
        one.mod_name == other.mod_name,
        one.parent_mod == other.parent_mod,
        one.message() == other.message(),
    ensures
        one.requirement == other.requirement,
{
    let name = one.mod_name;
    let opening = " (requisito '"@;
    let closing = match one.parent_mod {
        Some(parent) => "', pai '"@ + parent + "')"@,
        None => "')"@,
    };
    assert(one.context_note() =~= opening + one.requirement + closing);
    assert(other.context_note() =~= opening + other.requirement + closing);
    match one.kind {
        FailureView::Fetch(cause) => {
            let before = "Falha ao buscar metadados do mod '"@ + name + "'"@ + opening;
            let after = closing + ": "@ + cause;
            assert(one.message() =~= before + one.requirement + after);
            assert(other.message() =~= before + other.requirement + after);
            lemma_same_frame(before, one.requirement, other.requirement, after);
        },
        FailureView::VersionNotFound => {
            let before = "Versão "@;
            let after = " não encontrada para "@ + name + one.parent_note();
            assert(one.message() =~= before + one.requirement + after);
            assert(other.message() =~= before + other.requirement + after);
            lemma_same_frame(before, one.requirement, other.requirement, after);
        },
        FailureView::NoCompatibleRelease(platform) => {
            let before = "Nenhuma versão encontrada para "@ + name + " compatível com Factorio "@
                + platform + opening;
            assert(one.message() =~= before + one.requirement + closing);
            assert(other.message() =~= before + other.requirement + closing);
            lemma_same_frame(before, one.requirement, other.requirement, closing);
        },
        FailureView::MissingParentPlatform => {
            let before = "Dependência '"@ + name + "' não recebeu versão do Factorio do pai"@
                + opening;
            assert(one.message() =~= before + one.requirement + closing);
            assert(other.message() =~= before + other.requirement + closing);
            lemma_same_frame(before, one.requirement, other.requirement, closing);
        },
    }
}

/// The least index at or after `from` of a release with version `version`.
pub open spec fn exact_release_from(
    releases: Seq<ReleaseView>,
    version: Seq<char>,
    from: int,
) -> Option<int>
    decreases releases.len() - from,
{
    if from < 0 || from >= releases.len() {
        None
    } else if releases[from].version == version {
        Some(from)
    } else {
        exact_release_from(releases, version, from + 1)
    }
}

/// The index of the release to take among those made for `platform`: one
/// with the highest version, and of several with equal versions the last.
pub open spec fn latest_compatible(releases: Seq<ReleaseView>, platform: Seq<char>) -> Option<int>
    decreases releases.len(),
{
    if releases.len() == 0 {
        None
    } else {
        let before = latest_compatible(releases.drop_last(), platform);
        let k = releases.len() - 1;
        if releases[k].factorio_version != platform {
            before
        } else {
            match before {
                Some(b) => if version_sign(releases[b].version, releases[k].version) > 0 {
                    Some(b)
                } else {
                    Some(k)
                },
                None => Some(k),
            }
        }
    }
}

/// The requirements once `version` is asked of `name`: a new entry for a
/// name that had none, a replaced one where `version` is higher than what
/// was asked before.
pub open spec fn record_requirement(required: Pairs, name: Seq<char>, version: Seq<char>) -> Pairs {
    match key_index(required, name) {
        Some(i) => if version_sign(version, required[i].1) > 0 {
            required.update(i, (name, version))
        } else {
            required
        },
        None => required.push((name, version)),
    }
}

/// The parents once `parent` has asked for `name`: the first one to ask
/// stays.
pub open spec fn record_parent(parents: Pairs, name: Seq<char>, parent: Seq<char>) -> Pairs {
    if has_key(parents, name) {
        parents
    } else {
        parents.push((name, parent))
    }
}

/// The mathematical view of a run.
pub struct RunView {
    pub root_mod: Seq<char>,
    pub version: Seq<char>,
    pub required: Pairs,
    pub chosen: Pairs,
    pub parents: Pairs,
    pub pending: Seq<PendingView>,
}

impl RunView {
    /// The run at its start: the root is pending and required.
    pub open spec fn start(root_mod: Seq<char>, version: Seq<char>) -> RunView {
        RunView {
            root_mod,
            version,
            required: seq![(root_mod, version)],
            chosen: Seq::empty(),
            parents: Seq::empty(),
            pending: seq![
                PendingView { name: root_mod, requirement: version, parent: None, parent_platform: None },
            ],
        }
    }

    /// Whether no name occurs twice in any of the three lists.
    pub open spec fn wf(self) -> bool {
        &&& unique_keys(self.required)
        &&& unique_keys(self.chosen)
        &&& unique_keys(self.parents)
    }

    /// Whether a release was selected for `name` already.
    pub open spec fn is_processed(self, name: Seq<char>) -> bool {
        has_key(self.chosen, name)
    }

    /// The number of entries at the head of the work queue, from index
    /// `from` on, whose package is processed already.
    pub open spec fn stale_from(self, from: int) -> int
        decreases self.pending.len() - from,
    {
        if 0 <= from < self.pending.len() && self.is_processed(self.pending[from].name) {
            1 + self.stale_from(from + 1)
        } else {
            0
        }
    }

    /// The entry that is expanded next: the first pending one whose package
    /// is not processed yet.
    pub open spec fn next_entry(self) -> Option<PendingView> {
        if self.stale_from(0) < self.pending.len() {
            Some(self.pending[self.stale_from(0)])
        } else {
            None
        }
    }

    /// The run once the next entry is taken from the work queue, together
    /// with the discarded entries before it.
    pub open spec fn after_next(self) -> RunView {
        if self.stale_from(0) < self.pending.len() {
            RunView { pending: self.pending.skip(self.stale_from(0) + 1), ..self }
        } else {
            RunView { pending: Seq::empty(), ..self }
        }
    }

    /// The package that is named as the one that brought `entry` in: the
    /// entry's own parent, else the first one that asked for the package.
    pub open spec fn introducer(self, entry: PendingView) -> Option<Seq<char>> {
        match entry.parent {
            Some(parent) => Some(parent),
            None => lookup(self.parents, entry.name),
        }
    }

    /// Whether `entry` asks for the root at the version that the user chose.
    pub open spec fn is_root_request(self, entry: PendingView) -> bool {
        entry.name == self.root_mod && entry.requirement == self.version
    }

    /// The index of the release that is selected for `entry`, or why there is
    /// none. The root takes the release with exactly the version asked for. A
    /// dependency takes the latest release made for the platform version of
    /// its parent's release.
    pub open spec fn selection(self, entry: PendingView, releases: Seq<ReleaseView>) -> Result<
        int,
        FailureView,
    > {
        if self.is_root_request(entry) {
            match exact_release_from(releases, entry.requirement, 0) {
                Some(k) => Ok(k),
                None => Err(FailureView::VersionNotFound),
            }
        } else {
            match entry.parent_platform {
                Some(platform) => match latest_compatible(releases, platform) {
                    Some(k) => Ok(k),
                    None => Err(FailureView::NoCompatibleRelease(platform)),
                },
                None => Err(FailureView::MissingParentPlatform),
            }
        }
    }

    /// The error that gives up the run at `entry` for the reason `kind`.
    pub open spec fn failure(self, entry: PendingView, kind: FailureView) -> ResolveErrorView {
        ResolveErrorView {
            kind,
            mod_name: entry.name,
            requirement: entry.requirement,
            parent_mod: self.introducer(entry),
        }
    }

    /// The run once one parsed dependency of `name`'s release, made for
    /// `platform`, is recorded and queued.
    pub open spec fn with_dependency(
        self,
        name: Seq<char>,
        platform: Seq<char>,
        dependency: (Seq<char>, Seq<char>),
    ) -> RunView {
        RunView {
            required: record_requirement(self.required, dependency.0, dependency.1),
            parents: record_parent(self.parents, dependency.0, name),
            pending: self.pending.push(
                PendingView {
                    name: dependency.0,
                    requirement: dependency.1,
                    parent: Some(name),
                    parent_platform: Some(platform),
                },
            ),
            ..self
        }
    }

    /// The run once the declarations `declared` of `name`'s release are gone
    /// through in order: those that ask for an install are recorded and
    /// queued, the others are passed over.
    pub open spec fn with_dependencies(
        self,
        name: Seq<char>,
        platform: Seq<char>,
        declared: Seq<Seq<char>>,
    ) -> RunView
        decreases declared.len(),
    {
        if declared.len() == 0 {
            self
        } else {
            let before = self.with_dependencies(name, platform, declared.drop_last());
            match dependency_of(declared.last()) {
                Some(dependency) => before.with_dependency(name, platform, dependency),
                None => before,
            }
        }
    }

    /// The run once `release` is selected for `name`.
    pub open spec fn with_release(self, name: Seq<char>, release: ReleaseView) -> RunView {
        let selected = RunView { chosen: self.chosen.push((name, release.version)), ..self };
        match release.dependencies {
            Some(declared) => selected.with_dependencies(name, release.factorio_version, declared),
            None => selected,
        }
    }

    /// The run after `entry` is expanded with the releases of its package.
    /// An entry for a processed package changes nothing, and neither does one
    /// for which no release can be selected.
    pub open spec fn expand(self, entry: PendingView, releases: Seq<ReleaseView>) -> RunView {
        if self.is_processed(entry.name) {
            self
        } else {
            match self.selection(entry, releases) {
                Ok(k) => self.with_release(entry.name, releases[k]),
                Err(_) => self,
            }
        }
    }

    /// The counts that are reported once `entry` is dealt with.
    pub open spec fn progress(self, entry: PendingView) -> ProgressView {
        ProgressView {
            name: entry.name,
            requirement: entry.requirement,
            processed: self.chosen.len(),
            discovered: self.required.len(),
            pending: self.pending.len(),
        }
    }

    /// What the expansion of `entry` reports: the progress of the run, or the
    /// error that gives it up.
    pub open spec fn expand_outcome(self, entry: PendingView, releases: Seq<ReleaseView>) -> Result<
        ProgressView,
        ResolveErrorView,
    > {
        if self.is_processed(entry.name) {
            Ok(self.progress(entry))
        } else {
            match self.selection(entry, releases) {
                Ok(_) => Ok(self.expand(entry, releases).progress(entry)),
                Err(kind) => Err(self.failure(entry, kind)),
            }
        }
    }
}

/// `key_index_from` finds the first entry with the key at or after `from`.
pub proof fn lemma_key_index_from(entries: Pairs, key: Seq<char>, from: int)
    requires
        0 <= from,
    ensures
        match key_index_from(entries, key, from) {
            Some(i) => from <= i < entries.len() && entries[i].0 == key && forall|j: int|
                from <= j < i ==> (#[trigger] entries[j]).0 != key,
            None => forall|j: int| from <= j < entries.len() ==> (#[trigger] entries[j]).0 != key,
        },
    decreases entries.len() - from,
{
    if from < entries.len() && entries[from].0 != key {
        lemma_key_index_from(entries, key, from + 1);
    }
}

/// A new entry at the tail is found under its key only where the key was
/// not there before; every other lookup stays as it was.
pub proof fn lemma_lookup_push(entries: Pairs, entry: (Seq<char>, Seq<char>), key: Seq<char>)
    ensures
        has_key(entries, key) ==> lookup(entries.push(entry), key) == lookup(entries, key),
        !has_key(entries, key) && entry.0 == key ==> lookup(entries.push(entry), key) == Some(
            entry.1,
        ),
        !has_key(entries, key) && entry.0 != key ==> !has_key(entries.push(entry), key),
        unique_keys(entries) && !has_key(entries, entry.0) ==> unique_keys(entries.push(entry)),
{
    let longer = entries.push(entry);
    lemma_key_index_from(entries, key, 0);
    lemma_key_index_from(longer, key, 0);
    lemma_key_index_from(entries, entry.0, 0);
    match key_index(entries, key) {
        Some(i) => {
            assert(longer[i] == entries[i]);
            match key_index(longer, key) {
                Some(j) => {
                    if j < i {
                        assert(longer[j] == entries[j]);
                    } else if i < j {
                    }
                },
                None => {},
            }
        },
        None => {
            match key_index(longer, key) {
                Some(j) => {
                    if j < entries.len() {
                        assert(longer[j] == entries[j]);
                    }
                },
                None => {
                    assert(longer[entries.len() as int] == entry);
                },
            }
        },
    }
    if unique_keys(entries) && !has_key(entries, entry.0) {
        assert forall|i: int, j: int| 0 <= i < j < longer.len() implies (#[trigger] longer[i]).0 != (
        #[trigger] longer[j]).0 by {
            assert(longer[i] == entries[i]);
            if j < entries.len() {
                assert(longer[j] == entries[j]);
            }
        }
    }
}

/// Whether the release at index `j` is made for `platform`.
pub open spec fn is_compatible(releases: Seq<ReleaseView>, platform: Seq<char>, j: int) -> bool {
    0 <= j < releases.len() && releases[j].factorio_version == platform
}

/// The selected release is made for the platform, no release made for the
/// platform has a higher version, and every later one has a lower version.
/// There is no selection only where no release is made for the platform.
pub proof fn lemma_latest_compatible(releases: Seq<ReleaseView>, platform: Seq<char>)
    ensures
        match latest_compatible(releases, platform) {
            Some(k) => {
                &&& is_compatible(releases, platform, k)
                &&& forall|j: int| #[trigger]
                    is_compatible(releases, platform, j) ==> version_sign(
                        releases[j].version,
                        releases[k].version,
                    ) <= 0
                &&& forall|j: int| #[trigger]
                    is_compatible(releases, platform, j) && k < j ==> version_sign(
                        releases[j].version,
                        releases[k].version,
                    ) < 0
            },
            None => forall|j: int| !#[trigger] is_compatible(releases, platform, j),
        },
    decreases releases.len(),
{
    if releases.len() > 0 {
        let shorter = releases.drop_last();
        let last = releases.len() - 1;
        lemma_latest_compatible(shorter, platform);
        assert forall|j: int| 0 <= j < last implies is_compatible(shorter, platform, j)
            == is_compatible(releases, platform, j) by {
            assert(shorter[j] == releases[j]);
        }
        if releases[last].factorio_version == platform {
            lemma_version_sign_antisymmetric(releases[last].version, releases[last].version);
            match latest_compatible(shorter, platform) {
                Some(b) => {
                    assert(is_compatible(shorter, platform, b));
                    assert(shorter[b] == releases[b]);
                    lemma_version_sign_antisymmetric(releases[b].version, releases[last].version);
                    if version_sign(releases[b].version, releases[last].version) > 0 {
                        assert forall|j: int| #[trigger]
                            is_compatible(releases, platform, j) implies version_sign(
                            releases[j].version,
                            releases[b].version,
                        ) <= 0 by {
                            if j < last {
                                assert(is_compatible(shorter, platform, j));
                                assert(shorter[j] == releases[j]);
                            }
                        }
                        assert forall|j: int| #[trigger]
                            is_compatible(releases, platform, j) && b < j implies version_sign(
                            releases[j].version,
                            releases[b].version,
                        ) < 0 by {
                            if j < last {
                                assert(is_compatible(shorter, platform, j));
                                assert(shorter[j] == releases[j]);
                            }
                        }
                    } else {
                        assert forall|j: int| #[trigger]
                            is_compatible(releases, platform, j) implies version_sign(
                            releases[j].version,
                            releases[last].version,
                        ) <= 0 by {
                            if j < last {
                                assert(is_compatible(shorter, platform, j));
                                assert(shorter[j] == releases[j]);
                                lemma_version_sign_transitive(
                                    releases[j].version,
                                    releases[b].version,
                                    releases[last].version,
                                );
                            }
                        }
                    }
                },
                None => {
                    assert forall|j: int| #[trigger]
                        is_compatible(releases, platform, j) implies version_sign(
                        releases[j].version,
                        releases[last].version,
                    ) <= 0 by {
                        if j < last {
                            assert(is_compatible(shorter, platform, j));
                        }
                    }
                },
            }
        } else {
            match latest_compatible(shorter, platform) {
                Some(b) => {
                    assert(is_compatible(shorter, platform, b));
                    assert(shorter[b] == releases[b]);
                    assert forall|j: int| #[trigger]
                        is_compatible(releases, platform, j) implies version_sign(
                        releases[j].version,
                        releases[b].version,
                    ) <= 0 by {
                        assert(is_compatible(shorter, platform, j));
                        assert(shorter[j] == releases[j]);
                    }
                    assert forall|j: int| #[trigger]
                        is_compatible(releases, platform, j) && b < j implies version_sign(
                        releases[j].version,
                        releases[b].version,
                    ) < 0 by {
                        assert(is_compatible(shorter, platform, j));
                        assert(shorter[j] == releases[j]);
                    }
                },
                None => {
                    assert forall|j: int| !#[trigger] is_compatible(releases, platform, j) by {
                        if 0 <= j < last {
                            assert(!is_compatible(shorter, platform, j));
                        }
                    }
                },
            }
        }
    } else {
    }
}

/// Going through the declarations of a release selects nothing: the chosen
/// releases and the root stay as they are, and no name comes to occur twice.
pub proof fn lemma_with_dependencies(
    run: RunView,
    name: Seq<char>,
    platform: Seq<char>,
    declared: Seq<Seq<char>>,
)
    requires
        run.wf(),
    ensures
        run.with_dependencies(name, platform, declared).wf(),
        run.with_dependencies(name, platform, declared).chosen == run.chosen,
        run.with_dependencies(name, platform, declared).root_mod == run.root_mod,
        run.with_dependencies(name, platform, declared).version == run.version,
        run.with_dependencies(name, platform, declared).pending.len() >= run.pending.len(),
    decreases declared.len(),
{
    if declared.len() > 0 {
        let before = run.with_dependencies(name, platform, declared.drop_last());
        lemma_with_dependencies(run, name, platform, declared.drop_last());
        match dependency_of(declared.last()) {
            Some(dependency) => {
                lemma_record_requirement(before.required, dependency.0, dependency.1);
                lemma_lookup_push(before.parents, (dependency.0, name), dependency.0);
            },
            None => {},
        }
    }
}

/// An expansion keeps a well-formed run well formed.
pub proof fn lemma_expand_preserves(run: RunView, entry: PendingView, releases: Seq<ReleaseView>)
    requires
        run.wf(),
    ensures
        run.expand(entry, releases).wf(),
{
    if !run.is_processed(entry.name) {
        match run.selection(entry, releases) {
            Ok(k) => {
                let release = releases[k];
                let selected = RunView {
                    chosen: run.chosen.push((entry.name, release.version)),
                    ..run
                };
                lemma_lookup_push(run.chosen, (entry.name, release.version), entry.name);
                match release.dependencies {
                    Some(declared) => {
                        lemma_with_dependencies(
                            selected,
                            entry.name,
                            release.factorio_version,
                            declared,
                        );
                    },
                    None => {},
                }
            },
            Err(_) => {},
        }
    }
}

/// A package is expanded once. The release that is selected for a package
/// stays selected whatever is expanded later, under whatever requirement; an
/// entry for a package that has its release changes nothing at all; and an
/// expansion selects a release for the entry's own package or for none.
pub proof fn lemma_first_selection_stays(
    run: RunView,
    entry: PendingView,
    releases: Seq<ReleaseView>,
)
    requires
        run.wf(),
    ensures
        forall|name: Seq<char>| #[trigger]
            has_key(run.chosen, name) ==> lookup(run.expand(entry, releases).chosen, name)
                == lookup(run.chosen, name),
        run.is_processed(entry.name) ==> run.expand(entry, releases) == run,
        run.expand(entry, releases).chosen == run.chosen || run.expand(entry, releases).chosen
            == run.chosen.push((entry.name, run.expand(entry, releases).chosen.last().1)),
        unique_keys(run.expand(entry, releases).chosen),
{
    lemma_expand_preserves(run, entry, releases);
    if !run.is_processed(entry.name) {
        match run.selection(entry, releases) {
            Ok(k) => {
                let release = releases[k];
                let selected = RunView {
                    chosen: run.chosen.push((entry.name, release.version)),
                    ..run
                };
                lemma_lookup_push(run.chosen, (entry.name, release.version), entry.name);
                match release.dependencies {
                    Some(declared) => {
                        lemma_with_dependencies(
                            selected,
                            entry.name,
                            release.factorio_version,
                            declared,
                        );
                    },
                    None => {},
                }
                assert(run.expand(entry, releases).chosen == selected.chosen);
                assert(selected.chosen.last() == (entry.name, release.version));
                assert forall|name: Seq<char>| #[trigger] has_key(run.chosen, name) implies lookup(
                    selected.chosen,
                    name,
                ) == lookup(run.chosen, name) by {
                    lemma_lookup_push(run.chosen, (entry.name, release.version), name);
                }
            },
            Err(_) => {},
        }
    }
}

/// An expansion that selects a release records it for the entry's package,
/// behind the releases that were chosen before.
pub proof fn lemma_expand_selects(run: RunView, entry: PendingView, releases: Seq<ReleaseView>)
    requires
        run.wf(),
        !run.is_processed(entry.name),
        run.selection(entry, releases) is Ok,
    ensures
        run.expand(entry, releases).chosen == run.chosen.push(
            (entry.name, releases[run.selection(entry, releases)->Ok_0].version),
        ),
        run.expand(entry, releases).is_processed(entry.name),
{
    let release = releases[run.selection(entry, releases)->Ok_0];
    let selected = RunView { chosen: run.chosen.push((entry.name, release.version)), ..run };
    lemma_lookup_push(run.chosen, (entry.name, release.version), entry.name);
    match release.dependencies {
        Some(declared) => {
            lemma_with_dependencies(selected, entry.name, release.factorio_version, declared);
        },
        None => {},
    }
}

proof fn lemma_stale_from(run: RunView, from: int)
    requires
        0 <= from,
    ensures
        from + run.stale_from(from) <= run.pending.len() || from >= run.pending.len(),
        from + run.stale_from(from) < run.pending.len() ==> !run.is_processed(
            run.pending[from + run.stale_from(from)].name,
        ),
        run.stale_from(from) >= 0,
    decreases run.pending.len() - from,
{
    if from < run.pending.len() && run.is_processed(run.pending[from].name) {
        lemma_stale_from(run, from + 1);
    }
}

/// The entry that is taken next is never one for a package that has its
/// release already: no package is fetched a second time. And when no entry
/// is left to take, every pending entry was for such a package.
pub proof fn lemma_next_entry_is_new(run: RunView)
    ensures
        match run.next_entry() {
            Some(entry) => !run.is_processed(entry.name),
            None => forall|i: int|
                0 <= i < run.pending.len() ==> run.is_processed((#[trigger] run.pending[i]).name),
        },
{
    lemma_stale_from(run, 0);
    if run.next_entry() is None {
        lemma_all_stale(run, 0);
    }
}

proof fn lemma_all_stale(run: RunView, from: int)
    requires
        0 <= from <= run.pending.len(),
        from + run.stale_from(from) >= run.pending.len(),
    ensures
        forall|i: int|
            from <= i < run.pending.len() ==> run.is_processed((#[trigger] run.pending[i]).name),
    decreases run.pending.len() - from,
{
    if from < run.pending.len() {
        if run.is_processed(run.pending[from].name) {
            lemma_all_stale(run, from + 1);
        }
    }
}

/// Recording a requirement keeps the names unique and every other name's
/// requirement as it was; the name's own requirement is afterwards the
/// higher of the old and the new one.
pub proof fn lemma_record_requirement(required: Pairs, name: Seq<char>, version: Seq<char>)
    requires
        unique_keys(required),
    ensures
        unique_keys(record_requirement(required, name, version)),
        has_key(record_requirement(required, name, version), name),
        forall|other: Seq<char>|
            other != name ==> #[trigger] lookup(record_requirement(required, name, version), other)
                == lookup(required, other),
        lookup(record_requirement(required, name, version), name) == match lookup(required, name) {
            Some(before) => if version_sign(version, before) > 0 {
                Some(version)
            } else {
                Some(before)
            },
            None => Some(version),
        },
{
    let after = record_requirement(required, name, version);
    lemma_key_index_from(required, name, 0);
    lemma_key_index_from(after, name, 0);
    lemma_lookup_push(required, (name, version), name);
    assert forall|other: Seq<char>| other != name implies #[trigger] lookup(after, other) == lookup(
        required,
        other,
    ) by {
        lemma_key_index_from(required, other, 0);
        lemma_key_index_from(after, other, 0);
        lemma_lookup_push(required, (name, version), other);
        match key_index(required, name) {
            Some(i) => {
                match key_index(required, other) {
                    Some(a) => {
                        assert(after[a] == required[a]);
                        match key_index(after, other) {
                            Some(b) => {
                                if b < a {
                                    assert(after[b].0 == required[b].0);
                                } else if a < b {
                                }
                            },
                            None => {},
                        }
                    },
                    None => {
                        match key_index(after, other) {
                            Some(b) => {
                                assert(after[b].0 == required[b].0);
                            },
                            None => {},
                        }
                    },
                }
            },
            None => {},
        }
    }
    match key_index(required, name) {
        Some(i) => {
            if version_sign(version, required[i].1) > 0 {
                assert forall|a: int, b: int| 0 <= a < b < after.len() implies (#[trigger] after[a]).0
                    != (#[trigger] after[b]).0 by {
                    assert(after[a].0 == required[a].0);
                    assert(after[b].0 == required[b].0);
                }
                match key_index(after, name) {
                    Some(j) => {
                        if j < i {
                            assert(after[j].0 == required[j].0);
                        } else if i < j {
                        }
                    },
                    None => {
                        assert(after[i].0 == name);
                    },
                }
            }
        },
        None => {},
    }
}

} // verus!
