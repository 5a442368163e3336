//! The two lists that a profile keeps of its packages.
//!
//! The enable list tells the platform which packages to load. The tracking
//! list records, for each installed package, the version that was downloaded
//! and the file that holds it. Both hold a package at most once as long as
//! they are changed through the operations of this module only.

use crate::system::timestamp_now;
use crate::text::same_text;
use vstd::prelude::*;
use vstd::string::StringExecFns;

verus! {

/// One entry of the enable list.
#[derive(Debug)]
pub struct FactorioModListEntry {
    pub name: String,
    pub enabled: bool,
}

/// The enable list.
#[derive(Debug)]
pub struct FactorioModList {
    pub mods: Vec<FactorioModListEntry>,
}

/// One entry of the tracking list.
#[derive(Debug)]
pub struct InternalModEntry {
    pub name: String,
    pub version: String,
    pub enabled: bool,
    pub file_name: String,
    pub download_date: String,
    pub factorio_version: String,
}

/// The tracking list.
#[derive(Debug)]
pub struct InternalModList {
    pub mods: Vec<InternalModEntry>,
    pub last_updated: String,
}

/// The mathematical view of an entry of the enable list.
pub struct EnableView {
    pub name: Seq<char>,
    pub enabled: bool,
}

/// The mathematical view of an entry of the tracking list.
pub struct TrackView {
    pub name: Seq<char>,
    pub version: Seq<char>,
    pub enabled: bool,
    pub file_name: Seq<char>,
    pub download_date: Seq<char>,
    pub factorio_version: Seq<char>,
}

/// The mathematical view of the tracking list.
pub struct TrackListView {
    pub mods: Seq<TrackView>,
    pub last_updated: Seq<char>,
}

impl View for FactorioModListEntry {
    type V = EnableView;

    open spec fn view(&self) -> EnableView {
        EnableView { name: self.name@, enabled: self.enabled }
    }
}

impl View for FactorioModList {
    type V = Seq<EnableView>;

    open spec fn view(&self) -> Seq<EnableView> {
        Seq::new(self.mods@.len(), |i: int| self.mods@[i]@)
    }
}

impl View for InternalModEntry {
    type V = TrackView;

    open spec fn view(&self) -> TrackView {
        TrackView {
            name: self.name@,
            version: self.version@,
            enabled: self.enabled,
            file_name: self.file_name@,
            download_date: self.download_date@,
            factorio_version: self.factorio_version@,
        }
    }
}

/// The views of a sequence of tracking entries.
pub open spec fn tracks_view(mods: Seq<InternalModEntry>) -> Seq<TrackView> {
    Seq::new(mods.len(), |i: int| mods[i]@)
}

impl View for InternalModList {
    type V = TrackListView;

    open spec fn view(&self) -> TrackListView {
        TrackListView { mods: tracks_view(self.mods@), last_updated: self.last_updated@ }
    }
}

/// The least index at or after `from` of an entry of the enable list with
/// name `name`.
pub open spec fn enable_index_from(list: Seq<EnableView>, name: Seq<char>, from: int) -> Option<
    int,
>
    decreases list.len() - from,
{
    if from < 0 || from >= list.len() {
        None
    } else if list[from].name == name {
        Some(from)
    } else {
        enable_index_from(list, name, from + 1)
    }
}

/// The least index at or after `from` of an entry of the tracking list with
/// name `name`.
pub open spec fn track_index_from(list: Seq<TrackView>, name: Seq<char>, from: int) -> Option<int>
    decreases list.len() - from,
{
    if from < 0 || from >= list.len() {
        None
    } else if list[from].name == name {
        Some(from)
    } else {
        track_index_from(list, name, from + 1)
    }
}

/// The enable list without the entries for `name`.
pub open spec fn enable_without(list: Seq<EnableView>, name: Seq<char>) -> Seq<EnableView>
    decreases list.len(),
{
    if list.len() == 0 {
        list
    } else if list.last().name == name {
        enable_without(list.drop_last(), name)
    } else {
        enable_without(list.drop_last(), name).push(list.last())
    }
}

/// The tracking entries without those for `name`.
pub open spec fn track_without(list: Seq<TrackView>, name: Seq<char>) -> Seq<TrackView>
    decreases list.len(),
{
    if list.len() == 0 {
        list
    } else if list.last().name == name {
        track_without(list.drop_last(), name)
    } else {
        track_without(list.drop_last(), name).push(list.last())
    }
}

/// The enable list of a new profile: the platform package, enabled.
pub open spec fn initial_enable_list() -> Seq<EnableView> {
    seq![EnableView { name: "base"@, enabled: true }]
}

/// The enable list once `name` is installed: a new enabled entry at the end
/// where the list did not name the package, the list as it was where it did.
pub open spec fn enable_added(list: Seq<EnableView>, name: Seq<char>) -> Seq<EnableView> {
    if enable_index_from(list, name, 0) is Some {
        list
    } else {
        list.push(EnableView { name, enabled: true })
    }
}

/// The tracking list once `entry` is installed at `now`: the entry replaces
/// whatever was recorded for its package, and the list is stamped.
pub open spec fn track_added(list: TrackListView, entry: TrackView, now: Seq<char>) -> TrackListView {
    TrackListView { mods: track_without(list.mods, entry.name).push(entry), last_updated: now }
}

/// The tracking list once `name` is deleted at `now`.
pub open spec fn track_removed(list: TrackListView, name: Seq<char>, now: Seq<char>) -> TrackListView {
    TrackListView { mods: track_without(list.mods, name), last_updated: now }
}

/// The enable list with the first entry for `name` switched to `enabled`.
pub open spec fn enable_switched(list: Seq<EnableView>, name: Seq<char>, enabled: bool) -> Seq<
    EnableView,
> {
    match enable_index_from(list, name, 0) {
        Some(i) => list.update(i, EnableView { enabled, ..list[i] }),
        None => list,
    }
}

/// The tracking list with the first entry for `name` switched to `enabled`,
/// stamped at `now`.
pub open spec fn track_switched(
    list: TrackListView,
    name: Seq<char>,
    enabled: bool,
    now: Seq<char>,
) -> TrackListView {
    TrackListView {
        mods: match track_index_from(list.mods, name, 0) {
            Some(i) => list.mods.update(i, TrackView { enabled, ..list.mods[i] }),
            None => list.mods,
        },
        last_updated: now,
    }
}

/// A record of an installed package, as it is made at install time: enabled.
pub open spec fn installed(
    name: Seq<char>,
    version: Seq<char>,
    file_name: Seq<char>,
    factorio_version: Seq<char>,
    download_date: Seq<char>,
) -> TrackView {
    TrackView { name, version, enabled: true, file_name, download_date, factorio_version }
}

proof fn lemma_enable_index(list: Seq<EnableView>, name: Seq<char>, from: int)
    requires
        0 <= from,
    ensures
        match enable_index_from(list, name, from) {
            Some(i) => from <= i < list.len() && list[i].name == name && forall|j: int|
                from <= j < i ==> (#[trigger] list[j]).name != name,
            None => forall|j: int| from <= j < list.len() ==> (#[trigger] list[j]).name != name,
        },
    decreases list.len() - from,
{
    if from < list.len() && list[from].name != name {
        lemma_enable_index(list, name, from + 1);
    }
}

proof fn lemma_track_without(list: Seq<TrackView>, name: Seq<char>)
    ensures
        forall|j: int|
            0 <= j < track_without(list, name).len() ==> (#[trigger] track_without(
                list,
                name,
            )[j]).name != name,
        track_without(track_without(list, name), name) == track_without(list, name),
    decreases list.len(),
{
    if list.len() > 0 {
        lemma_track_without(list.drop_last(), name);
        let before = track_without(list.drop_last(), name);
        if list.last().name != name {
            let kept = before.push(list.last());
            assert(kept.drop_last() == before);
            assert forall|j: int| 0 <= j < kept.len() implies (#[trigger] kept[j]).name != name by {
                if j < before.len() {
                    assert(kept[j] == before[j]);
                }
            }
        }
    }
}

/// Installing a package twice with the same values leaves the lists as
/// installing it once does: the enable list names the package once more
/// only where it did not name it, and the tracking list holds one record of
/// the package, the new one.
pub proof fn lemma_install_is_idempotent(
    enable: Seq<EnableView>,
    track: TrackListView,
    entry: TrackView,
    now: Seq<char>,
)
    ensures
        enable_added(enable_added(enable, entry.name), entry.name) == enable_added(
            enable,
            entry.name,
        ),
        track_added(track_added(track, entry, now), entry, now) == track_added(track, entry, now),
        enable_index_from(enable_added(enable, entry.name), entry.name, 0) is Some,
{
    let once = enable_added(enable, entry.name);
    lemma_enable_index(enable, entry.name, 0);
    lemma_enable_index(once, entry.name, 0);
    if enable_index_from(enable, entry.name, 0) is None {
        assert(once[enable.len() as int].name == entry.name);
    }
    let kept = track_without(track.mods, entry.name);
    lemma_track_without(track.mods, entry.name);
    assert(kept.push(entry).drop_last() == kept);
    assert(track_without(kept.push(entry), entry.name) == kept);
}

fn enable_index(list: &FactorioModList, name: &str) -> (r: Option<usize>)
    ensures
        match r {
            Some(i) => i < list.mods.len() && enable_index_from(list@, name@, 0) == Some(i as int),
            None => enable_index_from(list@, name@, 0) is None,
        },
{
    let mut i: usize = 0;
    while i < list.mods.len()
        invariant
            i <= list.mods.len(),
            enable_index_from(list@, name@, 0) == enable_index_from(list@, name@, i as int),
        decreases list.mods.len() - i,
    {
        if same_text(list.mods[i].name.as_str(), name) {
            assert(list@[i as int].name == name@);
            return Some(i);
        }
        assert(list@[i as int].name != name@);
        i += 1;
    }
    None
}

fn track_index(list: &InternalModList, name: &str) -> (r: Option<usize>)
    ensures
        match r {
            Some(i) => i < list.mods.len() && track_index_from(list@.mods, name@, 0) == Some(
                i as int,
            ),
            None => track_index_from(list@.mods, name@, 0) is None,
        },
{
    let mut i: usize = 0;
    while i < list.mods.len()
        invariant
            i <= list.mods.len(),
            track_index_from(list@.mods, name@, 0) == track_index_from(
                list@.mods,
                name@,
                i as int,
            ),
        decreases list.mods.len() - i,
    {
        if same_text(list.mods[i].name.as_str(), name) {
            assert(list@.mods[i as int].name == name@);
            return Some(i);
        }
        assert(list@.mods[i as int].name != name@);
        i += 1;
    }
    None
}

fn remove_tracked(list: &mut InternalModList, name: &str)
    ensures
        final(list)@.mods == track_without(old(list)@.mods, name@),
        final(list)@.last_updated == old(list)@.last_updated,
{
    let mut taken: Vec<InternalModEntry> = Vec::new();
    core::mem::swap(&mut list.mods, &mut taken);
    let ghost all = tracks_view(taken@);
    assert(all.take(0) == Seq::<TrackView>::empty());
    assert(list@.mods =~= Seq::<TrackView>::empty());
    for entry in it: taken
        invariant
            tracks_view(it.seq()) == all,
            list.last_updated == old(list).last_updated,
            list@.mods == track_without(all.take(it.index() as int), name@),
    {
        let ghost n = it.index() as int;
        let ghost kept = list@.mods;
        proof {
            assert(all[n] == entry@);
            assert(all.take(n + 1).drop_last() == all.take(n));
            assert(all.take(n + 1).last() == entry@);
        }
        if !same_text(entry.name.as_str(), name) {
            list.mods.push(entry);
            assert(list@.mods =~= kept.push(entry@));
        }
    }
    assert(all.take(all.len() as int) == all);
}

fn remove_enabled(list: &mut FactorioModList, name: &str)
    ensures
        final(list)@ == enable_without(old(list)@, name@),
{
    let mut taken: Vec<FactorioModListEntry> = Vec::new();
    core::mem::swap(&mut list.mods, &mut taken);
    let ghost all = Seq::new(taken@.len(), |i: int| taken@[i]@);
    assert(all.take(0) == Seq::<EnableView>::empty());
    assert(list@ =~= Seq::<EnableView>::empty());
    for entry in it: taken
        invariant
            it.seq().len() == all.len(),
            forall|j: int| 0 <= j < all.len() ==> all[j] == (#[trigger] it.seq()[j])@,
            list@ == enable_without(all.take(it.index() as int), name@),
    {
        let ghost n = it.index() as int;
        let ghost kept = list@;
        proof {
            assert(all[n] == entry@);
            assert(all.take(n + 1).drop_last() == all.take(n));
            assert(all.take(n + 1).last() == entry@);
        }
        if !same_text(entry.name.as_str(), name) {
            list.mods.push(entry);
            assert(list@ =~= kept.push(entry@));
        }
    }
    assert(all.take(all.len() as int) == all);
}

impl FactorioModList {
    /// The enable list of a new profile.
    pub fn initial() -> (list: FactorioModList)
        ensures
            list@ == initial_enable_list(),
    {
        let mut mods: Vec<FactorioModListEntry> = Vec::new();
        mods.push(FactorioModListEntry { name: String::from_str("base"), enabled: true });
        let list = FactorioModList { mods };
        assert(list@ =~= initial_enable_list());
        list
    }
}

impl InternalModList {
    /// The tracking list of a new profile, stamped at `now`.
    pub fn initial(now: String) -> (list: InternalModList)
        ensures
            list@ == (TrackListView { mods: Seq::empty(), last_updated: now@ }),
    {
        let list = InternalModList { mods: Vec::new(), last_updated: now };
        assert(list@.mods =~= Seq::<TrackView>::empty());
        list
    }
}

/// Records an installed package in both lists, with given times. The enable
/// list gets an enabled entry for the package unless it names the package
/// already; the result says whether it got one. In the tracking list the new
/// record replaces what was recorded for the package before.
pub fn add_mod_to_lists_at(
    factorio_list: &mut FactorioModList,
    internal_list: &mut InternalModList,
    mod_name: &str,
    version: &str,
    file_name: &str,
    factorio_version: &str,
    download_date: String,
    last_updated: String,
) -> (added: bool)
    ensures
        final(factorio_list)@ == enable_added(old(factorio_list)@, mod_name@),
        added == (enable_index_from(old(factorio_list)@, mod_name@, 0) is None),
        final(internal_list)@ == track_added(
            old(internal_list)@,
            installed(mod_name@, version@, file_name@, factorio_version@, download_date@),
            last_updated@,
        ),
{
    let added = enable_index(factorio_list, mod_name).is_none();
    if added {
        factorio_list.mods.push(
            FactorioModListEntry { name: String::from_str(mod_name), enabled: true },
        );
        assert(factorio_list@ =~= old(factorio_list)@.push(
            EnableView { name: mod_name@, enabled: true },
        ));
    }
    remove_tracked(internal_list, mod_name);
    let ghost kept = internal_list@.mods;
    internal_list.mods.push(
        InternalModEntry {
            name: String::from_str(mod_name),
            version: String::from_str(version),
            enabled: true,
            file_name: String::from_str(file_name),
            download_date,
            factorio_version: String::from_str(factorio_version),
        },
    );
    internal_list.last_updated = last_updated;
    assert(internal_list@.mods =~= kept.push(
        installed(mod_name@, version@, file_name@, factorio_version@, download_date@),
    ));
    added
}

/// Whether the lists are those after the install of a package at some time.
pub open spec fn installed_in(
    enable_before: Seq<EnableView>,
    track_before: TrackListView,
    mod_name: Seq<char>,
    version: Seq<char>,
    file_name: Seq<char>,
    factorio_version: Seq<char>,
    enable_after: Seq<EnableView>,
    track_after: TrackListView,
) -> bool {
    &&& enable_after == enable_added(enable_before, mod_name)
    &&& exists|download_date: Seq<char>|
        track_after == track_added(
            track_before,
            #[trigger] installed(mod_name, version, file_name, factorio_version, download_date),
            track_after.last_updated,
        )
}

/// Records an installed package in both lists, at the current time. The
/// result says whether the enable list was changed.
pub fn add_mod_to_lists(
    factorio_list: &mut FactorioModList,
    internal_list: &mut InternalModList,
    mod_name: &str,
    version: &str,
    file_name: &str,
    factorio_version: &str,
) -> (added: bool)
    ensures
        installed_in(
            old(factorio_list)@,
            old(internal_list)@,
            mod_name@,
            version@,
            file_name@,
            factorio_version@,
            final(factorio_list)@,
            final(internal_list)@,
        ),
        added == (enable_index_from(old(factorio_list)@, mod_name@, 0) is None),
{
    let download_date = timestamp_now();
    let last_updated = timestamp_now();
    let ghost date = download_date@;
    let ghost stamp = last_updated@;
    let added = add_mod_to_lists_at(
        factorio_list,
        internal_list,
        mod_name,
        version,
        file_name,
        factorio_version,
        download_date,
        last_updated,
    );
    assert(internal_list@ == track_added(
        old(internal_list)@,
        installed(mod_name@, version@, file_name@, factorio_version@, date),
        stamp,
    ));
    added
}

/// Takes a deleted package out of both lists, and stamps the tracking list
/// at `now`.
pub fn remove_mod_from_lists(
    factorio_list: &mut FactorioModList,
    internal_list: &mut InternalModList,
    mod_name: &str,
    now: String,
)
    ensures
        final(factorio_list)@ == enable_without(old(factorio_list)@, mod_name@),
        final(internal_list)@ == track_removed(old(internal_list)@, mod_name@, now@),
{
    remove_enabled(factorio_list, mod_name);
    remove_tracked(internal_list, mod_name);
    internal_list.last_updated = now;
}

/// Switches a package on or off in both lists, in the first entry that each
/// has for it, and stamps the tracking list at `now`.
pub fn set_mod_enabled(
    factorio_list: &mut FactorioModList,
    internal_list: &mut InternalModList,
    mod_name: &str,
    enabled: bool,
    now: String,
)
    ensures
        final(factorio_list)@ == enable_switched(old(factorio_list)@, mod_name@, enabled),
        final(internal_list)@ == track_switched(old(internal_list)@, mod_name@, enabled, now@),
{
    match enable_index(factorio_list, mod_name) {
        Some(i) => {
            factorio_list.mods[i].enabled = enabled;
            assert(factorio_list@ =~= old(factorio_list)@.update(
                i as int,
                EnableView { enabled, ..old(factorio_list)@[i as int] },
            ));
        },
        None => {},
    }
    match track_index(internal_list, mod_name) {
        Some(i) => {
            internal_list.mods[i].enabled = enabled;
            assert(internal_list@.mods =~= old(internal_list)@.mods.update(
                i as int,
                TrackView { enabled, ..old(internal_list)@.mods[i as int] },
            ));
        },
        None => {},
    }
    internal_list.last_updated = now;
}

} // verus!
