//! The download queue: an ordered collection of transfer requests of which at
//! most one is being downloaded at any time.
//!
//! The queue itself does no input or output. Every operation changes the
//! collection and answers with a [`QueueEffect`]: whether the transfer that
//! is running has to be cancelled, and which item, if any, was admitted and
//! has to be started. The caller persists the queue, notifies its observers
//! and starts or cancels transfers accordingly.
//!
//! Progress is kept as a fixed-point fraction in millionths
//! ([`PROGRESS_FULL`] stands for a finished transfer), the speed in whole
//! bytes per second.

use crate::system::{fresh_id, timestamp_now};
use crate::text::same_text;
use crate::version::{version_lower, version_sign};
use vstd::prelude::*;

verus! {

/// The progress of a finished transfer.
pub const PROGRESS_FULL: u32 = 1_000_000;

/// The state of one entry of the queue.
#[derive(Debug)]
pub enum DownloadStatus {
    Queued,
    Downloading,
    Paused,
    Completed,
    Failed(String),
    Removed,
}

/// The mathematical view of a [`DownloadStatus`].
pub enum StatusView {
    Queued,
    Downloading,
    Paused,
    Completed,
    Failed(Seq<char>),
    Removed,
}

impl View for DownloadStatus {
    type V = StatusView;

    open spec fn view(&self) -> StatusView {
        match self {
            DownloadStatus::Queued => StatusView::Queued,
            DownloadStatus::Downloading => StatusView::Downloading,
            DownloadStatus::Paused => StatusView::Paused,
            DownloadStatus::Completed => StatusView::Completed,
            DownloadStatus::Failed(reason) => StatusView::Failed(reason@),
            DownloadStatus::Removed => StatusView::Removed,
        }
    }
}

impl Clone for DownloadStatus {
    fn clone(&self) -> (r: Self)
        ensures
            r == *self,
    {
        match self {
            DownloadStatus::Queued => DownloadStatus::Queued,
            DownloadStatus::Downloading => DownloadStatus::Downloading,
            DownloadStatus::Paused => DownloadStatus::Paused,
            DownloadStatus::Completed => DownloadStatus::Completed,
            DownloadStatus::Failed(reason) => DownloadStatus::Failed(reason.clone()),
            DownloadStatus::Removed => DownloadStatus::Removed,
        }
    }
}

impl PartialEq for DownloadStatus {
    fn eq(&self, other: &Self) -> (r: bool) {
        match self {
            DownloadStatus::Queued => matches!(other, DownloadStatus::Queued),
            DownloadStatus::Downloading => matches!(other, DownloadStatus::Downloading),
            DownloadStatus::Paused => matches!(other, DownloadStatus::Paused),
            DownloadStatus::Completed => matches!(other, DownloadStatus::Completed),
            DownloadStatus::Failed(a) => match other {
                DownloadStatus::Failed(b) => *a == *b,
                _ => false,
            },
            DownloadStatus::Removed => matches!(other, DownloadStatus::Removed),
        }
    }
}

impl vstd::std_specs::cmp::PartialEqSpecImpl for DownloadStatus {
    open spec fn obeys_eq_spec() -> bool {
        true
    }

    open spec fn eq_spec(&self, other: &Self) -> bool {
        self@ == other@
    }
}

/// One transfer request.
#[derive(Debug)]
pub struct DownloadItem {
    /// Identifier given at enqueue time.
    pub id: String,
    pub mod_name: String,
    pub version: String,
    pub profile_name: String,
    /// Fraction of the transfer that is done, in millionths.
    pub progress: u32,
    pub status: DownloadStatus,
    /// Creation time, as text.
    pub added_at: String,
    /// Throughput in bytes per second; meaningful while downloading.
    pub speed_bps: u64,
    /// Estimated seconds left; meaningful while downloading.
    pub eta_secs: Option<u64>,
}

/// The mathematical view of a [`DownloadItem`].
pub struct ItemView {
    pub id: Seq<char>,
    pub mod_name: Seq<char>,
    pub version: Seq<char>,
    pub profile_name: Seq<char>,
    pub progress: u32,
    pub status: StatusView,
    pub added_at: Seq<char>,
    pub speed_bps: u64,
    pub eta_secs: Option<u64>,
}

impl View for DownloadItem {
    type V = ItemView;

    open spec fn view(&self) -> ItemView {
        ItemView {
            id: self.id@,
            mod_name: self.mod_name@,
            version: self.version@,
            profile_name: self.profile_name@,
            progress: self.progress,
            status: self.status@,
            added_at: self.added_at@,
            speed_bps: self.speed_bps,
            eta_secs: self.eta_secs,
        }
    }
}

impl Clone for DownloadItem {
    fn clone(&self) -> (r: Self)
        ensures
            r == *self,
    {
        DownloadItem {
            id: self.id.clone(),
            mod_name: self.mod_name.clone(),
            version: self.version.clone(),
            profile_name: self.profile_name.clone(),
            progress: self.progress,
            status: self.status.clone(),
            added_at: self.added_at.clone(),
            speed_bps: self.speed_bps,
            eta_secs: self.eta_secs,
        }
    }
}

impl ItemView {
    /// A new entry: queued, with no progress yet.
    pub open spec fn queued(
        id: Seq<char>,
        added_at: Seq<char>,
        mod_name: Seq<char>,
        version: Seq<char>,
        profile_name: Seq<char>,
    ) -> ItemView {
        ItemView {
            id,
            mod_name,
            version,
            profile_name,
            progress: 0,
            status: StatusView::Queued,
            added_at,
            speed_bps: 0,
            eta_secs: None,
        }
    }

    /// Whether the entry is being downloaded.
    pub open spec fn is_downloading(self) -> bool {
        self.status is Downloading
    }

    /// Whether the entry's progress is a fraction between zero and one.
    pub open spec fn fraction_ok(self) -> bool {
        self.progress <= PROGRESS_FULL
    }

    /// Whether the entry shows no speed and no estimate.
    pub open spec fn is_still(self) -> bool {
        self.speed_bps == 0 && self.eta_secs is None
    }

    /// Whether the entry's figures fit together: its progress is a fraction
    /// between zero and one, and it shows a speed or an estimate only while
    /// it is being downloaded.
    pub open spec fn wf(self) -> bool {
        &&& self.fraction_ok()
        &&& !self.is_downloading() ==> self.is_still()
    }

    /// The entry without speed and estimate.
    pub open spec fn stilled(self) -> ItemView {
        ItemView { speed_bps: 0, eta_secs: None, ..self }
    }

    /// Whether an enqueue of `version` for the same package and profile
    /// replaces this entry: it is for a strictly lower version and is neither
    /// being downloaded nor completed.
    pub open spec fn superseded_by(
        self,
        mod_name: Seq<char>,
        profile_name: Seq<char>,
        version: Seq<char>,
    ) -> bool {
        &&& self.mod_name == mod_name
        &&& self.profile_name == profile_name
        &&& !(self.status is Downloading)
        &&& !(self.status is Completed)
        &&& version_sign(self.version, version) < 0
    }

    /// The entry after "pause": queued and downloading entries become
    /// paused, and show no speed and no estimate any more.
    pub open spec fn paused(self) -> ItemView {
        if self.status is Queued || self.status is Downloading {
            ItemView { status: StatusView::Paused, ..self.stilled() }
        } else {
            self
        }
    }

    /// The entry after "resume all": a paused entry is queued again.
    pub open spec fn unpaused(self) -> ItemView {
        if self.status is Paused {
            ItemView { status: StatusView::Queued, ..self }
        } else {
            self
        }
    }

    /// The entry after "resume": a paused or failed entry is queued again.
    pub open spec fn resumed(self) -> ItemView {
        if self.status is Paused || self.status is Failed {
            ItemView { status: StatusView::Queued, ..self }
        } else {
            self
        }
    }

    /// The entry as it is taken over from a persisted queue: a transfer that
    /// was under way starts again from nothing, and no entry shows a speed
    /// or an estimate, since none is being downloaded.
    pub open spec fn restarted(self) -> ItemView {
        if self.status is Downloading {
            ItemView { status: StatusView::Queued, progress: 0, ..self.stilled() }
        } else {
            self.stilled()
        }
    }

    /// The entry once it is admitted: downloading, from nothing.
    pub open spec fn started(self) -> ItemView {
        ItemView { status: StatusView::Downloading, progress: 0, ..self }
    }

    /// The entry once it is moved to the head of the queue: queued again,
    /// without speed and estimate, unless it is completed.
    pub open spec fn requeued(self) -> ItemView {
        if self.status is Completed {
            self
        } else {
            ItemView { status: StatusView::Queued, ..self.stilled() }
        }
    }

    /// The entry with the figures of a running transfer. Only an entry that
    /// is being downloaded takes them.
    pub open spec fn with_progress(
        self,
        progress: u32,
        speed_bps: u64,
        eta_secs: Option<u64>,
    ) -> ItemView {
        if self.status is Downloading {
            ItemView { progress, speed_bps, eta_secs, ..self }
        } else {
            self
        }
    }

    /// The entry once a transfer of it has ended with `outcome`. A completed
    /// transfer leaves it completed with full progress, a failed one failed
    /// with the reason; either way it shows no speed and no estimate any
    /// more. A cancelled transfer changes no status: the entry was paused or
    /// queued again when the transfer was stopped, and if it is being
    /// downloaded, then by a later transfer.
    pub open spec fn finished(self, outcome: OutcomeView) -> ItemView {
        match outcome {
            OutcomeView::Completed => ItemView {
                status: StatusView::Completed,
                progress: PROGRESS_FULL,
                ..self.stilled()
            },
            OutcomeView::Failed(reason) => ItemView {
                status: StatusView::Failed(reason),
                ..self.stilled()
            },
            OutcomeView::Cancelled => if self.status is Downloading {
                self
            } else {
                self.stilled()
            },
        }
    }
}

/// How a transfer ended.
#[derive(Debug)]
pub enum TransferOutcome {
    Completed,
    Failed(String),
    Cancelled,
}

/// The mathematical view of a [`TransferOutcome`].
pub enum OutcomeView {
    Completed,
    Failed(Seq<char>),
    Cancelled,
}

impl View for TransferOutcome {
    type V = OutcomeView;

    open spec fn view(&self) -> OutcomeView {
        match self {
            TransferOutcome::Completed => OutcomeView::Completed,
            TransferOutcome::Failed(reason) => OutcomeView::Failed(reason@),
            TransferOutcome::Cancelled => OutcomeView::Cancelled,
        }
    }
}

/// The views of a sequence of items.
pub open spec fn items_view(items: Seq<DownloadItem>) -> Seq<ItemView> {
    Seq::new(items.len(), |i: int| items[i]@)
}

/// The view of an item that may be absent.
pub open spec fn launch_view(item: Option<DownloadItem>) -> Option<ItemView> {
    match item {
        Some(item) => Some(item@),
        None => None,
    }
}

/// Whether the figures of every entry fit together.
pub open spec fn all_wf(items: Seq<ItemView>) -> bool {
    forall|i: int| 0 <= i < items.len() ==> (#[trigger] items[i]).wf()
}

/// Whether the progress of every entry is a fraction between zero and one.
pub open spec fn all_fractions(items: Seq<ItemView>) -> bool {
    forall|i: int| 0 <= i < items.len() ==> (#[trigger] items[i]).fraction_ok()
}

/// The number of entries that are being downloaded.
pub open spec fn downloading_count(items: Seq<ItemView>) -> nat
    decreases items.len(),
{
    if items.len() == 0 {
        0
    } else {
        downloading_count(items.drop_last()) + if items.last().is_downloading() {
            1nat
        } else {
            0nat
        }
    }
}

/// The least index at or after `from` of an entry that is queued.
pub open spec fn first_queued_from(items: Seq<ItemView>, from: int) -> Option<int>
    decreases items.len() - from,
{
    if from < 0 || from >= items.len() {
        None
    } else if items[from].status is Queued {
        Some(from)
    } else {
        first_queued_from(items, from + 1)
    }
}

/// The least index at or after `from` of an entry with identifier `id`.
pub open spec fn position_from(items: Seq<ItemView>, id: Seq<char>, from: int) -> Option<int>
    decreases items.len() - from,
{
    if from < 0 || from >= items.len() {
        None
    } else if items[from].id == id {
        Some(from)
    } else {
        position_from(items, id, from + 1)
    }
}

/// `id` with `count` zeros behind it.
pub open spec fn with_zeros(id: Seq<char>, count: nat) -> Seq<char> {
    id + Seq::new(count, |i: int| '0')
}

/// Whether no entry has the identifier `id`.
pub open spec fn unused_in(items: Seq<ItemView>, id: Seq<char>) -> bool {
    forall|i: int| 0 <= i < items.len() ==> (#[trigger] items[i]).id != id
}

/// Whether the last entry of `items` is the one entry with the identifier
/// `id`, and is a new entry for `version` of `mod_name` in `profile_name`:
/// without progress, speed and estimate, and queued or being downloaded.
pub open spec fn last_alone_is_new(
    items: Seq<ItemView>,
    id: Seq<char>,
    mod_name: Seq<char>,
    version: Seq<char>,
    profile_name: Seq<char>,
) -> bool {
    &&& items.len() >= 1
    &&& forall|i: int| 0 <= i < items.len() - 1 ==> (#[trigger] items[i]).id != id
    &&& items.last().id == id
    &&& items.last().mod_name == mod_name
    &&& items.last().version == version
    &&& items.last().profile_name == profile_name
    &&& items.last().progress == 0
    &&& items.last().speed_bps == 0
    &&& items.last().eta_secs is None
    &&& items.last().status is Queued || items.last().status is Downloading
}

/// The index of the first entry with identifier `id`.
pub open spec fn position_of(items: Seq<ItemView>, id: Seq<char>) -> Option<int> {
    position_from(items, id, 0)
}

/// The entries that an enqueue of `version` for `mod_name` in
/// `profile_name` does not replace, in their order.
pub open spec fn without_superseded(
    items: Seq<ItemView>,
    mod_name: Seq<char>,
    profile_name: Seq<char>,
    version: Seq<char>,
) -> Seq<ItemView>
    decreases items.len(),
{
    if items.len() == 0 {
        items
    } else {
        let before = without_superseded(items.drop_last(), mod_name, profile_name, version);
        if items.last().superseded_by(mod_name, profile_name, version) {
            before
        } else {
            before.push(items.last())
        }
    }
}

/// The entries whose identifier is not `id`, in their order.
pub open spec fn without_id(items: Seq<ItemView>, id: Seq<char>) -> Seq<ItemView>
    decreases items.len(),
{
    if items.len() == 0 {
        items
    } else {
        let before = without_id(items.drop_last(), id);
        if items.last().id == id {
            before
        } else {
            before.push(items.last())
        }
    }
}

/// The mathematical view of the queue.
pub struct QueueView {
    /// The entries, in queue order.
    pub items: Seq<ItemView>,
    /// Whether admission is blocked by "pause all".
    pub paused_all: bool,
}

impl QueueView {
    /// The empty queue, open for admission.
    pub open spec fn empty() -> QueueView {
        QueueView { items: Seq::empty(), paused_all: false }
    }

    /// Whether at most one entry is being downloaded.
    pub open spec fn single_flight(self) -> bool {
        downloading_count(self.items) <= 1
    }

    /// Whether every entry is well formed and at most one is being
    /// downloaded.
    pub open spec fn wf(self) -> bool {
        &&& self.single_flight()
        &&& all_wf(self.items)
    }

    /// The queue with `item` in place of the entry at index `k`.
    pub open spec fn with_item(self, k: int, item: ItemView) -> QueueView {
        QueueView { items: self.items.update(k, item), ..self }
    }

    /// Whether an entry is being downloaded.
    pub open spec fn busy(self) -> bool {
        downloading_count(self.items) > 0
    }

    /// The index of the entry that admission would start, if any: the first
    /// queued entry, where admission is not blocked and nothing is being
    /// downloaded.
    pub open spec fn next_admitted(self) -> Option<int> {
        if self.paused_all || self.busy() {
            None
        } else {
            first_queued_from(self.items, 0)
        }
    }

    /// The queue after admission.
    pub open spec fn start_next(self) -> QueueView {
        match self.next_admitted() {
            Some(k) => QueueView { items: self.items.update(k, self.items[k].started()), ..self },
            None => self,
        }
    }

    /// The entry that admission starts, as it stands in the queue afterwards.
    pub open spec fn admitted(self) -> Option<ItemView> {
        match self.next_admitted() {
            Some(k) => Some(self.items[k].started()),
            None => None,
        }
    }

    /// The queue after a user's enqueue of `item`.
    pub open spec fn enqueue(self, item: ItemView) -> QueueView {
        QueueView { items: self.items.push(item), ..self }.start_next()
    }

    /// The queue with `item` at the tail, before admission.
    pub open spec fn with_pushed(self, item: ItemView) -> QueueView {
        QueueView { items: self.items.push(item), ..self }
    }

    /// The queue without the entries that `item` replaces, before `item` is
    /// added.
    pub open spec fn with_superseded_removed(self, item: ItemView) -> QueueView {
        QueueView {
            items: without_superseded(
                self.items,
                item.mod_name,
                item.profile_name,
                item.version,
            ),
            ..self
        }
    }

    /// The queue after a direct enqueue of `item`: lower versions of the same
    /// package in the same profile leave, unless they are protected.
    pub open spec fn enqueue_direct(self, item: ItemView) -> QueueView {
        self.with_superseded_removed(item).with_pushed(item).start_next()
    }

    /// Whether a user's enqueue of `entry` leads from this queue to `after`
    /// and starts `launch`.
    pub open spec fn enqueued(
        self,
        entry: ItemView,
        after: QueueView,
        launch: Option<ItemView>,
    ) -> bool {
        &&& after == self.enqueue(entry)
        &&& launch == self.with_pushed(entry).admitted()
    }

    /// Whether a direct enqueue of `entry` leads from this queue to `after`
    /// and starts `launch`.
    pub open spec fn enqueued_direct(
        self,
        entry: ItemView,
        after: QueueView,
        launch: Option<ItemView>,
    ) -> bool {
        &&& after == self.enqueue_direct(entry)
        &&& launch == self.with_superseded_removed(entry).with_pushed(entry).admitted()
    }

    /// Whether a user's enqueue of a new entry with identifier `id`, created
    /// at some time, leads from this queue to `after` and starts `launch`.
    pub open spec fn enqueued_as(
        self,
        id: Seq<char>,
        mod_name: Seq<char>,
        version: Seq<char>,
        profile_name: Seq<char>,
        after: QueueView,
        launch: Option<ItemView>,
    ) -> bool {
        exists|added_at: Seq<char>|
            self.enqueued(
                #[trigger] ItemView::queued(id, added_at, mod_name, version, profile_name),
                after,
                launch,
            )
    }

    /// Whether a direct enqueue of a new entry with identifier `id`, created
    /// at some time, leads from this queue to `after` and starts `launch`.
    pub open spec fn enqueued_direct_as(
        self,
        id: Seq<char>,
        mod_name: Seq<char>,
        version: Seq<char>,
        profile_name: Seq<char>,
        after: QueueView,
        launch: Option<ItemView>,
    ) -> bool {
        exists|added_at: Seq<char>|
            self.enqueued_direct(
                #[trigger] ItemView::queued(id, added_at, mod_name, version, profile_name),
                after,
                launch,
            )
    }

    /// The queue once every entry is paused and admission is blocked.
    pub open spec fn pause_all(self) -> QueueView {
        QueueView {
            items: Seq::new(self.items.len(), |i: int| self.items[i].paused()),
            paused_all: true,
        }
    }

    /// The queue once admission is open again and paused entries are queued,
    /// before admission.
    pub open spec fn with_all_unpaused(self) -> QueueView {
        QueueView {
            items: Seq::new(self.items.len(), |i: int| self.items[i].unpaused()),
            paused_all: false,
        }
    }

    /// The queue after "resume all".
    pub open spec fn resume_all(self) -> QueueView {
        self.with_all_unpaused().start_next()
    }

    /// The queue after the first entry with identifier `id` is paused.
    pub open spec fn pause(self, id: Seq<char>) -> QueueView {
        match position_of(self.items, id) {
            Some(k) => QueueView { items: self.items.update(k, self.items[k].paused()), ..self },
            None => self,
        }
    }

    /// Whether pausing `id` stops the running transfer: the entry that is
    /// paused was being downloaded.
    pub open spec fn pause_cancels(self, id: Seq<char>) -> bool {
        match position_of(self.items, id) {
            Some(k) => self.items[k].is_downloading(),
            None => false,
        }
    }

    /// The queue once the first entry with identifier `id` is queued again,
    /// before admission.
    pub open spec fn with_resumed(self, id: Seq<char>) -> QueueView {
        match position_of(self.items, id) {
            Some(k) => QueueView { items: self.items.update(k, self.items[k].resumed()), ..self },
            None => self,
        }
    }

    /// The queue after "resume" of `id`.
    pub open spec fn resume(self, id: Seq<char>) -> QueueView {
        self.with_resumed(id).start_next()
    }

    /// The queue without the entries with identifier `id`, before admission.
    pub open spec fn with_removed(self, id: Seq<char>) -> QueueView {
        QueueView { items: without_id(self.items, id), ..self }
    }

    /// Whether removing `id` stops the running transfer: an entry that is
    /// removed was being downloaded.
    pub open spec fn remove_cancels(self, id: Seq<char>) -> bool {
        downloading_count(without_id(self.items, id)) < downloading_count(self.items)
    }

    /// The queue after "remove" of `id`.
    pub open spec fn remove(self, id: Seq<char>) -> QueueView {
        self.with_removed(id).start_next()
    }

    /// The queue with the first entry with identifier `id` at the head,
    /// before admission.
    pub open spec fn with_moved_to_top(self, id: Seq<char>) -> QueueView {
        match position_of(self.items, id) {
            Some(k) => QueueView {
                items: seq![self.items[k].requeued()] + self.items.remove(k),
                ..self
            },
            None => self,
        }
    }

    /// Whether moving `id` to the top stops the running transfer: the entry
    /// that is moved was being downloaded.
    pub open spec fn move_to_top_cancels(self, id: Seq<char>) -> bool {
        match position_of(self.items, id) {
            Some(k) => self.items[k].is_downloading(),
            None => false,
        }
    }

    /// The queue after "move to top" of `id`.
    pub open spec fn move_to_top(self, id: Seq<char>) -> QueueView {
        self.with_moved_to_top(id).start_next()
    }

    /// The queue after "clear": empty, with admission blocked.
    pub open spec fn clear(self) -> QueueView {
        QueueView { items: Seq::empty(), paused_all: true }
    }

    /// The queue after a persisted list of entries is taken over.
    pub open spec fn load(self, items: Seq<ItemView>) -> QueueView {
        QueueView { items: Seq::new(items.len(), |i: int| items[i].restarted()), ..self }
    }

    /// The queue with new figures for the first entry with identifier `id`.
    pub open spec fn update_progress(
        self,
        id: Seq<char>,
        progress: u32,
        speed_bps: u64,
        eta_secs: Option<u64>,
    ) -> QueueView {
        match position_of(self.items, id) {
            Some(k) => QueueView {
                items: self.items.update(
                    k,
                    self.items[k].with_progress(progress, speed_bps, eta_secs),
                ),
                ..self
            },
            None => self,
        }
    }

    /// The queue once the outcome of the transfer of `id` is recorded, before
    /// admission.
    pub open spec fn with_finished(self, id: Seq<char>, outcome: OutcomeView) -> QueueView {
        match position_of(self.items, id) {
            Some(k) => QueueView {
                items: self.items.update(k, self.items[k].finished(outcome)),
                ..self
            },
            None => self,
        }
    }

    /// The queue after the transfer of `id` has ended with `outcome`.
    pub open spec fn finish(self, id: Seq<char>, outcome: OutcomeView) -> QueueView {
        self.with_finished(id, outcome).start_next()
    }
}

/// What the caller has to do after an operation on the queue.
#[derive(Debug)]
pub struct QueueEffect {
    /// Whether the transfer that is running has to be cancelled.
    pub cancel_active: bool,
    /// The entry that was admitted and whose transfer has to be started.
    pub launch: Option<DownloadItem>,
}

/// The queue of downloads.
#[derive(Debug)]
pub struct DownloadQueueManager {
    /// The entries, in queue order.
    pub queue: Vec<DownloadItem>,
    /// Whether "pause all" blocks admission.
    pub paused_all: bool,
}

impl View for DownloadQueueManager {
    type V = QueueView;

    open spec fn view(&self) -> QueueView {
        QueueView { items: items_view(self.queue@), paused_all: self.paused_all }
    }
}


fn new_item(
    id: String,
    added_at: String,
    mod_name: String,
    version: String,
    profile_name: String,
) -> (item: DownloadItem)
    ensures
        item@ == ItemView::queued(id@, added_at@, mod_name@, version@, profile_name@),
{
    DownloadItem {
        id,
        mod_name,
        version,
        profile_name,
        progress: 0,
        status: DownloadStatus::Queued,
        added_at,
        speed_bps: 0,
        eta_secs: None,
    }
}

impl DownloadQueueManager {
    /// An empty queue, open for admission.
    pub fn new() -> (r: Self)
        ensures
            r@ == QueueView::empty(),
            r@.wf(),
    {
        let r = DownloadQueueManager { queue: Vec::new(), paused_all: false };
        assert(r@.items =~= Seq::<ItemView>::empty());
        r
    }

    fn busy(&self) -> (b: bool)
        ensures
            b == self@.busy(),
    {
        let mut k: usize = 0;
        while k < self.queue.len()
            invariant
                k <= self.queue.len(),
                forall|j: int| 0 <= j < k ==> !(#[trigger] self@.items[j]).is_downloading(),
            decreases self.queue.len() - k,
        {
            if matches!(self.queue[k].status, DownloadStatus::Downloading) {
                proof {
                    lemma_count_zero(self@.items);
                    assert(self@.items[k as int].is_downloading());
                }
                return true;
            }
            k += 1;
        }
        proof {
            lemma_count_zero(self@.items);
        }
        false
    }

    fn first_queued(&self) -> (r: Option<usize>)
        ensures
            match r {
                Some(k) => k < self.queue.len() && first_queued_from(self@.items, 0) == Some(
                    k as int,
                ),
                None => first_queued_from(self@.items, 0) is None,
            },
    {
        let mut k: usize = 0;
        while k < self.queue.len()
            invariant
                k <= self.queue.len(),
                first_queued_from(self@.items, 0) == first_queued_from(self@.items, k as int),
            decreases self.queue.len() - k,
        {
            if matches!(self.queue[k].status, DownloadStatus::Queued) {
                assert(self@.items[k as int].status is Queued);
                return Some(k);
            }
            assert(!(self@.items[k as int].status is Queued));
            k += 1;
        }
        None
    }

    fn position(&self, id: &str) -> (r: Option<usize>)
        ensures
            match r {
                Some(k) => k < self.queue.len() && position_of(self@.items, id@) == Some(k as int),
                None => position_of(self@.items, id@) is None,
            },
    {
        let mut k: usize = 0;
        while k < self.queue.len()
            invariant
                k <= self.queue.len(),
                position_of(self@.items, id@) == position_from(self@.items, id@, k as int),
            decreases self.queue.len() - k,
        {
            if same_text(self.queue[k].id.as_str(), id) {
                assert(self@.items[k as int].id == id@);
                return Some(k);
            }
            assert(self@.items[k as int].id != id@);
            k += 1;
        }
        None
    }

    fn longest_id(&self) -> (longest: usize)
        ensures
            forall|i: int| 0 <= i < self@.items.len() ==> (#[trigger] self@.items[i]).id.len() <= longest,
    {
        let mut longest: usize = 0;
        let mut k: usize = 0;
        while k < self.queue.len()
            invariant
                k <= self.queue.len(),
                forall|i: int| 0 <= i < k ==> (#[trigger] self@.items[i]).id.len() <= longest,
            decreases self.queue.len() - k,
        {
            let len = self.queue[k].id.as_str().unicode_len();
            assert(self@.items[k as int].id.len() == len);
            if len > longest {
                longest = len;
            }
            k += 1;
        }
        longest
    }

    /// An identifier that no entry of the queue has: the drawn one, if no
    /// entry has it, else the drawn one with as few zeros behind it as make
    /// it one that no entry has.
    pub fn unused_id(&self, drawn: String) -> (id: String)
        ensures
            unused_in(self@.items, id@),
            id@.len() >= drawn@.len(),
            id@ == with_zeros(drawn@, (id@.len() - drawn@.len()) as nat),
            forall|fewer: nat|
                fewer < id@.len() - drawn@.len() ==> !unused_in(
                    self@.items,
                    #[trigger] with_zeros(drawn@, fewer),
                ),
    {
        let longest = self.longest_id();
        let mut id = drawn;
        let ghost mut zeros: nat = 0;
        proof {
            lemma_position(self@.items, id@, 0);
            assert(id@ =~= with_zeros(drawn@, 0));
        }
        while self.position(id.as_str()).is_some()
            invariant
                id@ == with_zeros(drawn@, zeros),
                forall|fewer: nat|
                    fewer < zeros ==> !unused_in(self@.items, #[trigger] with_zeros(drawn@, fewer)),
                forall|i: int|
                    0 <= i < self@.items.len() ==> (#[trigger] self@.items[i]).id.len() <= longest,
                position_of(self@.items, id@) is None ==> unused_in(self@.items, id@),
            decreases longest + 1 - id@.len(),
        {
            proof {
                lemma_position(self@.items, id@, 0);
                let k = position_of(self@.items, id@)->0;
                assert(self@.items[k].id.len() <= longest);
                assert(!unused_in(self@.items, with_zeros(drawn@, zeros)));
            }
            id.push('0');
            proof {
                assert(id@ =~= with_zeros(drawn@, zeros + 1));
                zeros = zeros + 1;
                lemma_position(self@.items, id@, 0);
            }
        }
        id
    }

    /// Admission: where nothing is being downloaded and admission is not
    /// blocked, the first queued entry becomes the one that is downloaded,
    /// with its progress at zero, and is handed back to be started.
    pub fn start_next_if_idle_owned(manager: &mut DownloadQueueManager) -> (launch: Option<
        DownloadItem,
    >)
        ensures
            final(manager)@ == old(manager)@.start_next(),
            launch_view(launch) == old(manager)@.admitted(),
            old(manager)@.wf() ==> final(manager)@.wf(),
    {
        proof {
            lemma_start_next_preserves(manager@);
        }
        if manager.paused_all {
            return None;
        }
        if manager.busy() {
            return None;
        }
        match manager.first_queued() {
            Some(k) => {
                manager.queue[k].status = DownloadStatus::Downloading;
                manager.queue[k].progress = 0;
                let item = manager.queue[k].clone();
                assert(manager@.items =~= old(manager)@.items.update(
                    k as int,
                    old(manager)@.items[k as int].started(),
                ));
                Some(item)
            },
            None => None,
        }
    }

    /// Removes the entries that an enqueue of `keep_version` for `mod_name`
    /// in `profile_name` replaces.
    fn remove_lower_versions(&mut self, mod_name: &str, profile_name: &str, keep_version: &str)
        ensures
            final(self)@.items == without_superseded(
                old(self)@.items,
                mod_name@,
                profile_name@,
                keep_version@,
            ),
            final(self).paused_all == old(self).paused_all,
    {
        let mut taken: Vec<DownloadItem> = Vec::new();
        core::mem::swap(&mut self.queue, &mut taken);
        let ghost all = items_view(taken@);
        assert(all.take(0) == Seq::<ItemView>::empty());
        assert(self@.items =~= Seq::<ItemView>::empty());
        for item in it: taken
            invariant
                items_view(it.seq()) == all,
                self.paused_all == old(self).paused_all,
                self@.items == without_superseded(
                    all.take(it.index() as int),
                    mod_name@,
                    profile_name@,
                    keep_version@,
                ),
        {
            let ghost n = it.index() as int;
            let ghost kept = self@.items;
            proof {
                assert(all[n] == item@);
                assert(all.take(n + 1).drop_last() == all.take(n));
                assert(all.take(n + 1).last() == item@);
            }
            let superseded = same_text(item.mod_name.as_str(), mod_name) && same_text(
                item.profile_name.as_str(),
                profile_name,
            ) && !matches!(item.status, DownloadStatus::Downloading | DownloadStatus::Completed)
                && version_lower(item.version.as_str(), keep_version);
            assert(superseded == item@.superseded_by(mod_name@, profile_name@, keep_version@));
            if !superseded {
                self.queue.push(item);
                assert(self@.items =~= kept.push(item@));
            }
        }
        assert(all.take(all.len() as int) == all);
    }

    /// The direct enqueue with a given identifier and creation time: the
    /// entries that the new one replaces leave, the new entry joins at the
    /// tail, and admission runs.
    pub fn enqueue_item_direct_with(
        &mut self,
        id: String,
        added_at: String,
        mod_name: String,
        version: String,
        profile_name: String,
    ) -> (effect: QueueEffect)
        ensures
            final(self)@ == old(self)@.enqueue_direct(
                ItemView::queued(id@, added_at@, mod_name@, version@, profile_name@),
            ),
            !effect.cancel_active,
            launch_view(effect.launch) == old(self)@.with_superseded_removed(
                ItemView::queued(id@, added_at@, mod_name@, version@, profile_name@),
            ).with_pushed(
                ItemView::queued(id@, added_at@, mod_name@, version@, profile_name@),
            ).admitted(),
            old(self)@.wf() ==> final(self)@.wf(),
    {
        let ghost entry = ItemView::queued(id@, added_at@, mod_name@, version@, profile_name@);
        proof {
            if self@.wf() {
                lemma_apply_preserves_wf(self@, QueueOp::EnqueueDirect(entry));
            }
        }
        self.remove_lower_versions(mod_name.as_str(), profile_name.as_str(), version.as_str());
        let ghost kept = self@;
        assert(kept == old(self)@.with_superseded_removed(entry));
        let item = new_item(id, added_at, mod_name, version, profile_name);
        self.queue.push(item);
        assert(self@.items =~= kept.items.push(entry));
        let launch = DownloadQueueManager::start_next_if_idle_owned(self);
        QueueEffect { cancel_active: false, launch }
    }

    /// The direct enqueue, as the dependency resolver uses it: lower versions
    /// of the same package in the same profile are replaced unless they are
    /// being downloaded or completed. The new entry gets the current time and
    /// a fresh identifier, which is returned: one drawn at random, of 36
    /// characters, that no entry of the queue has. Should an entry have the
    /// one that is drawn, it is made longer until none has it.
    pub fn enqueue_item_direct(
        &mut self,
        mod_name: String,
        version: String,
        profile_name: String,
    ) -> (r: (String, QueueEffect))
        ensures
            old(self)@.enqueued_direct_as(
                r.0@,
                mod_name@,
                version@,
                profile_name@,
                final(self)@,
                launch_view(r.1.launch),
            ),
            r.0@.len() >= 36,
            unused_in(old(self)@.items, r.0@),
            last_alone_is_new(final(self)@.items, r.0@, mod_name@, version@, profile_name@),
            !r.1.cancel_active,
            old(self)@.wf() ==> final(self)@.wf(),
    {
        let id = self.unused_id(fresh_id());
        let added_at = timestamp_now();
        let ghost stamp = added_at@;
        let effect = self.enqueue_item_direct_with(
            id.clone(),
            added_at,
            mod_name,
            version,
            profile_name,
        );
        proof {
            let entry = ItemView::queued(id@, stamp, mod_name@, version@, profile_name@);
            assert(old(self)@.enqueued_direct(entry, self@, launch_view(effect.launch)));
            lemma_new_entry_is_the_only_one(old(self)@, entry, true);
        }
        (id, effect)
    }

    /// Takes over a persisted list of entries. A transfer that was under way
    /// when the list was written cannot be picked up: such an entry is queued
    /// again, with its progress at zero. No entry is being downloaded after
    /// the load, so none shows a speed or an estimate.
    pub fn load_persist(&mut self, items: Vec<DownloadItem>)
        ensures
            final(self)@ == old(self)@.load(items_view(items@)),
            final(self)@.single_flight(),
            all_fractions(items_view(items@)) ==> final(self)@.wf(),
    {
        let ghost given = items_view(items@);
        let mut items = items;
        let mut k: usize = 0;
        while k < items.len()
            invariant
                k <= items.len(),
                items.len() == given.len(),
                forall|j: int| 0 <= j < k ==> (#[trigger] items@[j])@ == given[j].restarted(),
                forall|j: int| k <= j < items.len() ==> (#[trigger] items@[j])@ == given[j],
            decreases items.len() - k,
        {
            if matches!(items[k].status, DownloadStatus::Downloading) {
                items[k].status = DownloadStatus::Queued;
                items[k].progress = 0;
            }
            items[k].speed_bps = 0;
            items[k].eta_secs = None;
            k += 1;
        }
        self.queue = items;
        proof {
            assert(self@.items =~= old(self)@.load(given).items);
            lemma_count_zero(self@.items);
            if all_fractions(given) {
                assert forall|i: int| 0 <= i < self@.items.len() implies (
                #[trigger] self@.items[i]).wf() by {
                    assert(given[i].fraction_ok());
                }
            }
        }
    }

    /// Records new figures of the running transfer in the first entry with
    /// identifier `id`, if that entry is being downloaded; an entry that is
    /// not shows no figures of a transfer.
    pub fn update_progress(
        &mut self,
        id: &str,
        progress: u32,
        speed_bps: u64,
        eta_secs: Option<u64>,
    )
        requires
            progress <= PROGRESS_FULL,
        ensures
            final(self)@ == old(self)@.update_progress(id@, progress, speed_bps, eta_secs),
            old(self)@.wf() ==> final(self)@.wf(),
    {
        proof {
            if self@.wf() {
                lemma_apply_preserves_wf(
                    self@,
                    QueueOp::UpdateProgress(id@, progress, speed_bps, eta_secs),
                );
            }
        }
        match self.position(id) {
            Some(k) => {
                if matches!(self.queue[k].status, DownloadStatus::Downloading) {
                    self.queue[k].progress = progress;
                    self.queue[k].speed_bps = speed_bps;
                    self.queue[k].eta_secs = eta_secs;
                }
                assert(self@.items =~= old(self)@.items.update(
                    k as int,
                    old(self)@.items[k as int].with_progress(progress, speed_bps, eta_secs),
                ));
            },
            None => {},
        }
    }

    /// Records how a transfer of `id` ended, in the first entry with that
    /// identifier, and runs admission. A completed transfer leaves the entry
    /// completed with full progress, a failed one failed with its reason;
    /// either way the entry shows no speed and no estimate any more. A
    /// cancelled transfer changes no status.
    pub fn finish_transfer(&mut self, id: &str, outcome: TransferOutcome) -> (effect: QueueEffect)
        ensures
            final(self)@ == old(self)@.finish(id@, outcome@),
            !effect.cancel_active,
            launch_view(effect.launch) == old(self)@.with_finished(id@, outcome@).admitted(),
            old(self)@.wf() ==> final(self)@.wf(),
    {
        proof {
            if self@.wf() {
                lemma_apply_preserves_wf(self@, QueueOp::Finish(id@, outcome@));
            }
        }
        match self.position(id) {
            Some(k) => {
                match outcome {
                    TransferOutcome::Completed => {
                        self.queue[k].status = DownloadStatus::Completed;
                        self.queue[k].progress = PROGRESS_FULL;
                        self.queue[k].speed_bps = 0;
                        self.queue[k].eta_secs = None;
                    },
                    TransferOutcome::Failed(reason) => {
                        self.queue[k].status = DownloadStatus::Failed(reason);
                        self.queue[k].speed_bps = 0;
                        self.queue[k].eta_secs = None;
                    },
                    TransferOutcome::Cancelled => {
                        if !matches!(self.queue[k].status, DownloadStatus::Downloading) {
                            self.queue[k].speed_bps = 0;
                            self.queue[k].eta_secs = None;
                        }
                    },
                }
                assert(self@.items =~= old(self)@.items.update(
                    k as int,
                    old(self)@.items[k as int].finished(outcome@),
                ));
            },
            None => {},
        }
        let launch = DownloadQueueManager::start_next_if_idle_owned(self);
        QueueEffect { cancel_active: false, launch }
    }
}

impl Default for DownloadQueueManager {
    fn default() -> (r: Self)
        ensures
            r@ == QueueView::empty(),
    {
        DownloadQueueManager::new()
    }
}

/// Empties the queue and blocks admission. The running transfer, if there is
/// one, has to be cancelled.
pub fn clear_download_queue(state: &mut DownloadQueueManager) -> (effect: QueueEffect)
    ensures
        final(state)@ == old(state)@.clear(),
        effect.cancel_active == old(state)@.busy(),
        effect.launch is None,
        final(state)@.wf(),
{
    let cancel = state.busy();
    state.paused_all = true;
    state.queue = Vec::new();
    assert(state@.items =~= Seq::<ItemView>::empty());
    QueueEffect { cancel_active: cancel, launch: None }
}

/// The user's enqueue with a given identifier and creation time: the new
/// entry joins at the tail and admission runs.
pub fn enqueue_download_with(
    state: &mut DownloadQueueManager,
    id: String,
    added_at: String,
    mod_name: String,
    version: String,
    profile_name: String,
) -> (effect: QueueEffect)
    ensures
        final(state)@ == old(state)@.enqueue(
            ItemView::queued(id@, added_at@, mod_name@, version@, profile_name@),
        ),
        !effect.cancel_active,
        launch_view(effect.launch) == old(state)@.with_pushed(
            ItemView::queued(id@, added_at@, mod_name@, version@, profile_name@),
        ).admitted(),
        old(state)@.wf() ==> final(state)@.wf(),
{
    let ghost entry = ItemView::queued(id@, added_at@, mod_name@, version@, profile_name@);
    proof {
        if state@.wf() {
            lemma_apply_preserves_wf(state@, QueueOp::Enqueue(entry));
        }
    }
    let item = new_item(id, added_at, mod_name, version, profile_name);
    state.queue.push(item);
    assert(state@.items =~= old(state)@.items.push(entry));
    let launch = DownloadQueueManager::start_next_if_idle_owned(state);
    QueueEffect { cancel_active: false, launch }
}

/// The user's enqueue: a new queued entry at the tail, with the current time
/// and a fresh identifier, which is returned; then admission. The
/// identifier is one drawn at random, of 36 characters, that no entry of the
/// queue has. Should an entry have the one that is drawn, it is made longer
/// until none has it.
pub fn enqueue_download(
    state: &mut DownloadQueueManager,
    mod_name: String,
    version: String,
    profile_name: String,
) -> (r: (String, QueueEffect))
    ensures
        old(state)@.enqueued_as(
            r.0@,
            mod_name@,
            version@,
            profile_name@,
            final(state)@,
            launch_view(r.1.launch),
        ),
        r.0@.len() >= 36,
        unused_in(old(state)@.items, r.0@),
        last_alone_is_new(final(state)@.items, r.0@, mod_name@, version@, profile_name@),
        !r.1.cancel_active,
        old(state)@.wf() ==> final(state)@.wf(),
{
    let id = state.unused_id(fresh_id());
    let added_at = timestamp_now();
    let ghost stamp = added_at@;
    let effect = enqueue_download_with(state, id.clone(), added_at, mod_name, version, profile_name);
    proof {
        let entry = ItemView::queued(id@, stamp, mod_name@, version@, profile_name@);
        assert(old(state)@.enqueued(entry, state@, launch_view(effect.launch)));
        lemma_new_entry_is_the_only_one(old(state)@, entry, false);
    }
    (id, effect)
}

/// A copy of the entries, in queue order.
pub fn get_download_queue(state: &DownloadQueueManager) -> (snapshot: Vec<DownloadItem>)
    ensures
        items_view(snapshot@) == state@.items,
{
    let mut snapshot: Vec<DownloadItem> = Vec::new();
    let mut k: usize = 0;
    while k < state.queue.len()
        invariant
            k <= state.queue.len(),
            snapshot@ == state.queue@.take(k as int),
        decreases state.queue.len() - k,
    {
        snapshot.push(state.queue[k].clone());
        assert(state.queue@.take(k + 1) == state.queue@.take(k as int).push(state.queue@[k as int]));
        k += 1;
    }
    assert(state.queue@.take(k as int) == state.queue@);
    snapshot
}

/// Pauses every queued or downloading entry and blocks admission. A paused
/// entry shows no speed and no estimate. The running transfer, if there is
/// one, has to be cancelled.
pub fn pause_all_downloads(state: &mut DownloadQueueManager) -> (effect: QueueEffect)
    ensures
        final(state)@ == old(state)@.pause_all(),
        effect.cancel_active == old(state)@.busy(),
        effect.launch is None,
        old(state)@.wf() ==> final(state)@.wf(),
{
    proof {
        if state@.wf() {
            lemma_apply_preserves_wf(state@, QueueOp::PauseAll);
        }
    }
    let cancel = state.busy();
    state.paused_all = true;
    let mut k: usize = 0;
    while k < state.queue.len()
        invariant
            k <= state.queue.len(),
            state.queue.len() == old(state).queue.len(),
            state.paused_all,
            forall|j: int| 0 <= j < k ==> (#[trigger] state.queue@[j])@ == old(state)@.items[j].paused(),
            forall|j: int| k <= j < state.queue.len() ==> (#[trigger] state.queue@[j])@ == old(state)@.items[j],
        decreases state.queue.len() - k,
    {
        if matches!(state.queue[k].status, DownloadStatus::Downloading | DownloadStatus::Queued) {
            state.queue[k].status = DownloadStatus::Paused;
            state.queue[k].speed_bps = 0;
            state.queue[k].eta_secs = None;
        }
        k += 1;
    }
    assert(state@.items =~= old(state)@.pause_all().items);
    QueueEffect { cancel_active: cancel, launch: None }
}

/// Opens admission again, queues every paused entry, and runs admission.
pub fn resume_all_downloads(state: &mut DownloadQueueManager) -> (effect: QueueEffect)
    ensures
        final(state)@ == old(state)@.resume_all(),
        !effect.cancel_active,
        launch_view(effect.launch) == old(state)@.with_all_unpaused().admitted(),
        old(state)@.wf() ==> final(state)@.wf(),
{
    proof {
        if state@.wf() {
            lemma_apply_preserves_wf(state@, QueueOp::ResumeAll);
        }
    }
    state.paused_all = false;
    let mut k: usize = 0;
    while k < state.queue.len()
        invariant
            k <= state.queue.len(),
            state.queue.len() == old(state).queue.len(),
            !state.paused_all,
            forall|j: int| 0 <= j < k ==> (#[trigger] state.queue@[j])@ == old(state)@.items[j].unpaused(),
            forall|j: int| k <= j < state.queue.len() ==> (#[trigger] state.queue@[j])@ == old(state)@.items[j],
        decreases state.queue.len() - k,
    {
        if matches!(state.queue[k].status, DownloadStatus::Paused) {
            state.queue[k].status = DownloadStatus::Queued;
        }
        k += 1;
    }
    assert(state@.items =~= old(state)@.with_all_unpaused().items);
    let launch = DownloadQueueManager::start_next_if_idle_owned(state);
    QueueEffect { cancel_active: false, launch }
}

/// Pauses the first entry with identifier `id`, if it is queued or being
/// downloaded; it shows no speed and no estimate any more. If it was being
/// downloaded, its transfer has to be cancelled.
pub fn pause_download(state: &mut DownloadQueueManager, id: &str) -> (effect: QueueEffect)
    ensures
        final(state)@ == old(state)@.pause(id@),
        effect.cancel_active == old(state)@.pause_cancels(id@),
        effect.launch is None,
        old(state)@.wf() ==> final(state)@.wf(),
{
    proof {
        if state@.wf() {
            lemma_apply_preserves_wf(state@, QueueOp::Pause(id@));
        }
    }
    let mut cancel = false;
    match state.position(id) {
        Some(k) => {
            if matches!(state.queue[k].status, DownloadStatus::Downloading) {
                cancel = true;
            }
            if matches!(state.queue[k].status, DownloadStatus::Downloading | DownloadStatus::Queued) {
                state.queue[k].status = DownloadStatus::Paused;
                state.queue[k].speed_bps = 0;
                state.queue[k].eta_secs = None;
            }
            assert(state@.items =~= old(state)@.items.update(
                k as int,
                old(state)@.items[k as int].paused(),
            ));
        },
        None => {},
    }
    QueueEffect { cancel_active: cancel, launch: None }
}

/// Queues the first entry with identifier `id` again, if it is paused or
/// failed, and runs admission.
pub fn resume_download(state: &mut DownloadQueueManager, id: &str) -> (effect: QueueEffect)
    ensures
        final(state)@ == old(state)@.resume(id@),
        !effect.cancel_active,
        launch_view(effect.launch) == old(state)@.with_resumed(id@).admitted(),
        old(state)@.wf() ==> final(state)@.wf(),
{
    proof {
        if state@.wf() {
            lemma_apply_preserves_wf(state@, QueueOp::Resume(id@));
        }
    }
    match state.position(id) {
        Some(k) => {
            if matches!(state.queue[k].status, DownloadStatus::Paused | DownloadStatus::Failed(_)) {
                state.queue[k].status = DownloadStatus::Queued;
            }
            assert(state@.items =~= old(state)@.items.update(
                k as int,
                old(state)@.items[k as int].resumed(),
            ));
        },
        None => {},
    }
    let launch = DownloadQueueManager::start_next_if_idle_owned(state);
    QueueEffect { cancel_active: false, launch }
}

/// Deletes every entry with identifier `id` and runs admission. If an entry
/// that leaves was being downloaded, its transfer has to be cancelled.
pub fn remove_from_queue(state: &mut DownloadQueueManager, id: &str) -> (effect: QueueEffect)
    ensures
        final(state)@ == old(state)@.remove(id@),
        effect.cancel_active == old(state)@.remove_cancels(id@),
        launch_view(effect.launch) == old(state)@.with_removed(id@).admitted(),
        old(state)@.wf() ==> final(state)@.wf(),
{
    proof {
        if state@.wf() {
            lemma_apply_preserves_wf(state@, QueueOp::Remove(id@));
        }
    }
    let mut taken: Vec<DownloadItem> = Vec::new();
    core::mem::swap(&mut state.queue, &mut taken);
    let ghost all = items_view(taken@);
    let mut cancel = false;
    assert(all.take(0) == Seq::<ItemView>::empty());
    assert(state@.items =~= Seq::<ItemView>::empty());
    for item in it: taken
        invariant
            items_view(it.seq()) == all,
            all == old(state)@.items,
            state.paused_all == old(state).paused_all,
            state@.items == without_id(all.take(it.index() as int), id@),
            downloading_count(state@.items) <= downloading_count(all.take(it.index() as int)),
            cancel == (downloading_count(state@.items) < downloading_count(
                all.take(it.index() as int),
            )),
    {
        let ghost n = it.index() as int;
        let ghost kept = state@.items;
        proof {
            assert(all[n] == item@);
            assert(all.take(n + 1) == all.take(n).push(item@));
            assert(all.take(n + 1).drop_last() == all.take(n));
            assert(all.take(n + 1).last() == item@);
            lemma_count_push(all.take(n), item@);
            lemma_count_push(kept, item@);
        }
        if same_text(item.id.as_str(), id) {
            if matches!(item.status, DownloadStatus::Downloading) {
                cancel = true;
            }
        } else {
            state.queue.push(item);
            assert(state@.items =~= kept.push(item@));
        }
    }
    assert(all.take(all.len() as int) == all);
    let launch = DownloadQueueManager::start_next_if_idle_owned(state);
    QueueEffect { cancel_active: cancel, launch }
}

/// Moves the first entry with identifier `id` to the head of the queue,
/// queues it again unless it is completed, and runs admission. If the entry
/// was being downloaded, its transfer has to be cancelled: the entry starts
/// again from nothing, and only one transfer is to run.
pub fn move_to_top(state: &mut DownloadQueueManager, id: &str) -> (effect: QueueEffect)
    ensures
        final(state)@ == old(state)@.move_to_top(id@),
        effect.cancel_active == old(state)@.move_to_top_cancels(id@),
        launch_view(effect.launch) == old(state)@.with_moved_to_top(id@).admitted(),
        old(state)@.wf() ==> final(state)@.wf(),
{
    proof {
        if state@.wf() {
            lemma_apply_preserves_wf(state@, QueueOp::MoveToTop(id@));
        }
    }
    let mut cancel = false;
    match state.position(id) {
        Some(k) => {
            let mut item = state.queue.remove(k);
            if matches!(item.status, DownloadStatus::Downloading) {
                cancel = true;
            }
            if !matches!(item.status, DownloadStatus::Completed) {
                item.status = DownloadStatus::Queued;
                item.speed_bps = 0;
                item.eta_secs = None;
            }
            state.queue.insert(0, item);
            assert(state@.items =~= seq![old(state)@.items[k as int].requeued()] + old(
                state,
            )@.items.remove(k as int));
        },
        None => {},
    }
    let launch = DownloadQueueManager::start_next_if_idle_owned(state);
    QueueEffect { cancel_active: cancel, launch }
}

/// One operation on the queue, with the values it is applied to.
pub enum QueueOp {
    Enqueue(ItemView),
    EnqueueDirect(ItemView),
    StartNext,
    PauseAll,
    ResumeAll,
    Pause(Seq<char>),
    Resume(Seq<char>),
    Remove(Seq<char>),
    MoveToTop(Seq<char>),
    Clear,
    Load(Seq<ItemView>),
    UpdateProgress(Seq<char>, u32, u64, Option<u64>),
    Finish(Seq<char>, OutcomeView),
}

impl QueueView {
    /// The queue after one operation. An entry is enqueued as queued,
    /// whatever status the given item carries.
    pub open spec fn apply(self, op: QueueOp) -> QueueView {
        match op {
            QueueOp::Enqueue(item) => self.enqueue(
                ItemView::queued(
                    item.id,
                    item.added_at,
                    item.mod_name,
                    item.version,
                    item.profile_name,
                ),
            ),
            QueueOp::EnqueueDirect(item) => self.enqueue_direct(
                ItemView::queued(
                    item.id,
                    item.added_at,
                    item.mod_name,
                    item.version,
                    item.profile_name,
                ),
            ),
            QueueOp::StartNext => self.start_next(),
            QueueOp::PauseAll => self.pause_all(),
            QueueOp::ResumeAll => self.resume_all(),
            QueueOp::Pause(id) => self.pause(id),
            QueueOp::Resume(id) => self.resume(id),
            QueueOp::Remove(id) => self.remove(id),
            QueueOp::MoveToTop(id) => self.move_to_top(id),
            QueueOp::Clear => self.clear(),
            QueueOp::Load(items) => self.load(items),
            QueueOp::UpdateProgress(id, progress, speed_bps, eta_secs) => self.update_progress(
                id,
                progress,
                speed_bps,
                eta_secs,
            ),
            QueueOp::Finish(id, outcome) => self.finish(id, outcome),
        }
    }

    /// The queue after a sequence of operations, applied in order.
    pub open spec fn apply_all(self, ops: Seq<QueueOp>) -> QueueView
        decreases ops.len(),
    {
        if ops.len() == 0 {
            self
        } else {
            self.apply_all(ops.drop_last()).apply(ops.last())
        }
    }
}

/// The number of downloading entries grows by one with a downloading entry
/// at the tail, and not at all with another one.
pub proof fn lemma_count_push(items: Seq<ItemView>, item: ItemView)
    ensures
        downloading_count(items.push(item)) == downloading_count(items) + if item.is_downloading() {
            1nat
        } else {
            0nat
        },
{
    assert(items.push(item).drop_last() == items);
}

/// No entry is counted exactly when no entry is being downloaded.
pub proof fn lemma_count_zero(items: Seq<ItemView>)
    ensures
        downloading_count(items) == 0 <==> forall|i: int|
            0 <= i < items.len() ==> !(#[trigger] items[i]).is_downloading(),
    decreases items.len(),
{
    if items.len() > 0 {
        lemma_count_zero(items.drop_last());
        if downloading_count(items) == 0 {
            assert forall|i: int| 0 <= i < items.len() implies !(#[trigger] items[i]).is_downloading() by {
                if i < items.len() - 1 {
                    assert(items.drop_last()[i] == items[i]);
                }
            }
        } else {
            if !items.last().is_downloading() {
                let i = choose|i: int|
                    0 <= i < items.drop_last().len() && (#[trigger] items.drop_last()[i]).is_downloading();
                assert(items[i].is_downloading());
            }
        }
    }
}

proof fn lemma_count_update(items: Seq<ItemView>, k: int, item: ItemView)
    requires
        0 <= k < items.len(),
    ensures
        downloading_count(items.update(k, item)) + (if items[k].is_downloading() {
            1nat
        } else {
            0nat
        }) == downloading_count(items) + if item.is_downloading() {
            1nat
        } else {
            0nat
        },
    decreases items.len(),
{
    if k == items.len() - 1 {
        assert(items.update(k, item).drop_last() == items.drop_last());
    } else {
        assert(items.update(k, item).drop_last() == items.drop_last().update(k, item));
        lemma_count_update(items.drop_last(), k, item);
    }
}

proof fn lemma_count_remove(items: Seq<ItemView>, k: int)
    requires
        0 <= k < items.len(),
    ensures
        downloading_count(items.remove(k)) + (if items[k].is_downloading() {
            1nat
        } else {
            0nat
        }) == downloading_count(items),
    decreases items.len(),
{
    if k == items.len() - 1 {
        assert(items.remove(k) == items.drop_last());
    } else {
        assert(items.remove(k).drop_last() == items.drop_last().remove(k));
        assert(items.remove(k).last() == items.last());
        lemma_count_remove(items.drop_last(), k);
    }
}

proof fn lemma_count_prepend(item: ItemView, items: Seq<ItemView>)
    ensures
        downloading_count(seq![item] + items) == downloading_count(items) + if item.is_downloading() {
            1nat
        } else {
            0nat
        },
    decreases items.len(),
{
    if items.len() == 0 {
        assert(seq![item] + items == Seq::<ItemView>::empty().push(item));
        lemma_count_push(Seq::<ItemView>::empty(), item);
    } else {
        assert((seq![item] + items).drop_last() == seq![item] + items.drop_last());
        assert((seq![item] + items).last() == items.last());
        lemma_count_prepend(item, items.drop_last());
    }
}

proof fn lemma_count_pointwise(before: Seq<ItemView>, after: Seq<ItemView>)
    requires
        before.len() == after.len(),
        forall|i: int|
            0 <= i < after.len() ==> ((#[trigger] after[i]).is_downloading()
                ==> before[i].is_downloading()),
    ensures
        downloading_count(after) <= downloading_count(before),
    decreases before.len(),
{
    if before.len() > 0 {
        assert forall|i: int|
            0 <= i < after.drop_last().len() && (
            #[trigger] after.drop_last()[i]).is_downloading() implies before.drop_last()[i].is_downloading() by {
            assert(after.drop_last()[i] == after[i]);
            assert(before.drop_last()[i] == before[i]);
        }
        lemma_count_pointwise(before.drop_last(), after.drop_last());
        assert(after.last() == after[after.len() - 1]);
        assert(before.last() == before[before.len() - 1]);
    }
}

proof fn lemma_without_superseded(
    items: Seq<ItemView>,
    mod_name: Seq<char>,
    profile_name: Seq<char>,
    version: Seq<char>,
)
    ensures
        downloading_count(without_superseded(items, mod_name, profile_name, version))
            == downloading_count(items),
        forall|j: int|
            0 <= j < without_superseded(items, mod_name, profile_name, version).len()
                ==> items.contains(
                #[trigger] without_superseded(items, mod_name, profile_name, version)[j],
            ),
    decreases items.len(),
{
    let kept = without_superseded(items, mod_name, profile_name, version);
    if items.len() > 0 {
        let before = without_superseded(items.drop_last(), mod_name, profile_name, version);
        lemma_without_superseded(items.drop_last(), mod_name, profile_name, version);
        if !items.last().superseded_by(mod_name, profile_name, version) {
            lemma_count_push(before, items.last());
        }
        assert forall|j: int| 0 <= j < kept.len() implies items.contains(#[trigger] kept[j]) by {
            if j < before.len() {
                assert(items.drop_last().contains(before[j]));
                let i = choose|i: int|
                    0 <= i < items.drop_last().len() && items.drop_last()[i] == before[j];
                assert(items[i] == kept[j]);
            } else {
                assert(items[items.len() - 1] == kept[j]);
            }
        }
    }
}

proof fn lemma_without_id(items: Seq<ItemView>, id: Seq<char>)
    ensures
        downloading_count(without_id(items, id)) <= downloading_count(items),
        forall|j: int|
            0 <= j < without_id(items, id).len() ==> items.contains(
                #[trigger] without_id(items, id)[j],
            ),
    decreases items.len(),
{
    let kept = without_id(items, id);
    if items.len() > 0 {
        let before = without_id(items.drop_last(), id);
        lemma_without_id(items.drop_last(), id);
        if items.last().id != id {
            lemma_count_push(before, items.last());
        }
        assert forall|j: int| 0 <= j < kept.len() implies items.contains(#[trigger] kept[j]) by {
            if j < before.len() {
                assert(items.drop_last().contains(before[j]));
                let i = choose|i: int|
                    0 <= i < items.drop_last().len() && items.drop_last()[i] == before[j];
                assert(items[i] == kept[j]);
            } else {
                assert(items[items.len() - 1] == kept[j]);
            }
        }
    }
}

/// `first_queued_from` gives the first queued entry at or after `from`, and
/// none exactly where no entry from there on is queued.
pub proof fn lemma_first_queued(items: Seq<ItemView>, from: int)
    requires
        0 <= from,
    ensures
        match first_queued_from(items, from) {
            Some(k) => from <= k < items.len() && items[k].status is Queued && forall|j: int|
                from <= j < k ==> !((#[trigger] items[j]).status is Queued),
            None => forall|j: int|
                from <= j < items.len() ==> !((#[trigger] items[j]).status is Queued),
        },
    decreases items.len() - from,
{
    if from < items.len() && !(items[from].status is Queued) {
        lemma_first_queued(items, from + 1);
    }
}

/// `position_from` gives the first entry with the identifier at or after
/// `from`, and none exactly where no entry from there on has it.
pub proof fn lemma_position(items: Seq<ItemView>, id: Seq<char>, from: int)
    requires
        0 <= from,
    ensures
        match position_from(items, id, from) {
            Some(k) => from <= k < items.len() && items[k].id == id && forall|j: int|
                from <= j < k ==> (#[trigger] items[j]).id != id,
            None => forall|j: int| from <= j < items.len() ==> (#[trigger] items[j]).id != id,
        },
    decreases items.len() - from,
{
    if from < items.len() && items[from].id != id {
        lemma_position(items, id, from + 1);
    }
}

/// Admission keeps a well-formed queue well formed, and never leaves more
/// than one entry downloading where there was at most one.
pub proof fn lemma_start_next_preserves(q: QueueView)
    ensures
        q.single_flight() ==> q.start_next().single_flight(),
        q.wf() ==> q.start_next().wf(),
{
    match q.next_admitted() {
        Some(k) => {
            lemma_first_queued(q.items, 0);
            lemma_count_update(q.items, k, q.items[k].started());
        },
        None => {},
    }
}

proof fn lemma_update_preserves(q: QueueView, k: int, item: ItemView)
    requires
        0 <= k < q.items.len(),
        item.is_downloading() ==> q.items[k].is_downloading(),
    ensures
        q.single_flight() ==> q.with_item(k, item).single_flight(),
        q.wf() && item.wf() ==> q.with_item(k, item).wf(),
{
    lemma_count_update(q.items, k, item);
}

/// Every operation leaves at most one entry downloading where there was at
/// most one before.
pub proof fn lemma_apply_preserves_single_flight(q: QueueView, op: QueueOp)
    requires
        q.single_flight(),
    ensures
        q.apply(op).single_flight(),
{
    match op {
        QueueOp::Enqueue(item) => {
            let item = ItemView::queued(
                item.id,
                item.added_at,
                item.mod_name,
                item.version,
                item.profile_name,
            );
            lemma_count_push(q.items, item);
            lemma_start_next_preserves(q.with_pushed(item));
        },
        QueueOp::EnqueueDirect(item) => {
            let item = ItemView::queued(
                item.id,
                item.added_at,
                item.mod_name,
                item.version,
                item.profile_name,
            );
            lemma_without_superseded(q.items, item.mod_name, item.profile_name, item.version);
            lemma_count_push(q.with_superseded_removed(item).items, item);
            lemma_start_next_preserves(q.with_superseded_removed(item).with_pushed(item));
        },
        QueueOp::StartNext => {
            lemma_start_next_preserves(q);
        },
        QueueOp::PauseAll => {
            lemma_count_pointwise(q.items, q.pause_all().items);
        },
        QueueOp::ResumeAll => {
            lemma_count_pointwise(q.items, q.with_all_unpaused().items);
            lemma_start_next_preserves(q.with_all_unpaused());
        },
        QueueOp::Pause(id) => {
            lemma_position(q.items, id, 0);
            match position_of(q.items, id) {
                Some(k) => lemma_update_preserves(q, k, q.items[k].paused()),
                None => {},
            }
        },
        QueueOp::Resume(id) => {
            lemma_position(q.items, id, 0);
            match position_of(q.items, id) {
                Some(k) => lemma_update_preserves(q, k, q.items[k].resumed()),
                None => {},
            }
            lemma_start_next_preserves(q.with_resumed(id));
        },
        QueueOp::Remove(id) => {
            lemma_without_id(q.items, id);
            lemma_start_next_preserves(q.with_removed(id));
        },
        QueueOp::MoveToTop(id) => {
            lemma_position(q.items, id, 0);
            match position_of(q.items, id) {
                Some(k) => {
                    lemma_count_remove(q.items, k);
                    lemma_count_prepend(q.items[k].requeued(), q.items.remove(k));
                },
                None => {},
            }
            lemma_start_next_preserves(q.with_moved_to_top(id));
        },
        QueueOp::Clear => {},
        QueueOp::Load(items) => {
            lemma_count_zero(q.load(items).items);
        },
        QueueOp::UpdateProgress(id, progress, speed_bps, eta_secs) => {
            lemma_position(q.items, id, 0);
            match position_of(q.items, id) {
                Some(k) => lemma_update_preserves(
                    q,
                    k,
                    q.items[k].with_progress(progress, speed_bps, eta_secs),
                ),
                None => {},
            }
        },
        QueueOp::Finish(id, outcome) => {
            lemma_position(q.items, id, 0);
            match position_of(q.items, id) {
                Some(k) => lemma_update_preserves(q, k, q.items[k].finished(outcome)),
                None => {},
            }
            lemma_start_next_preserves(q.with_finished(id, outcome));
        },
    }
}

impl QueueOp {
    /// Whether the progress figures that the operation brings are fractions
    /// between zero and one.
    pub open spec fn wf(self) -> bool {
        match self {
            QueueOp::Load(items) => all_fractions(items),
            QueueOp::UpdateProgress(_, progress, _, _) => progress <= PROGRESS_FULL,
            _ => true,
        }
    }
}

/// Every operation keeps a well-formed queue well formed.
pub proof fn lemma_apply_preserves_wf(q: QueueView, op: QueueOp)
    requires
        q.wf(),
        op.wf(),
    ensures
        q.apply(op).wf(),
{
    lemma_apply_preserves_single_flight(q, op);
    match op {
        QueueOp::Enqueue(item) => {
            let item = ItemView::queued(
                item.id,
                item.added_at,
                item.mod_name,
                item.version,
                item.profile_name,
            );
            lemma_count_push(q.items, item);
            lemma_start_next_preserves(q.with_pushed(item));
        },
        QueueOp::EnqueueDirect(item) => {
            let item = ItemView::queued(
                item.id,
                item.added_at,
                item.mod_name,
                item.version,
                item.profile_name,
            );
            lemma_without_superseded(q.items, item.mod_name, item.profile_name, item.version);
            let kept = q.with_superseded_removed(item);
            assert forall|i: int| 0 <= i < kept.items.len() implies (#[trigger] kept.items[i]).wf() by {
                assert(q.items.contains(kept.items[i]));
            }
            lemma_count_push(kept.items, item);
            lemma_start_next_preserves(kept.with_pushed(item));
        },
        QueueOp::StartNext => {
            lemma_start_next_preserves(q);
        },
        QueueOp::PauseAll => {},
        QueueOp::ResumeAll => {
            lemma_count_pointwise(q.items, q.with_all_unpaused().items);
            lemma_start_next_preserves(q.with_all_unpaused());
        },
        QueueOp::Pause(id) => {
            lemma_position(q.items, id, 0);
        },
        QueueOp::Resume(id) => {
            lemma_position(q.items, id, 0);
            match position_of(q.items, id) {
                Some(k) => lemma_update_preserves(q, k, q.items[k].resumed()),
                None => {},
            }
            lemma_start_next_preserves(q.with_resumed(id));
        },
        QueueOp::Remove(id) => {
            lemma_without_id(q.items, id);
            let kept = q.with_removed(id);
            assert forall|i: int| 0 <= i < kept.items.len() implies (#[trigger] kept.items[i]).wf() by {
                assert(q.items.contains(kept.items[i]));
            }
            lemma_start_next_preserves(kept);
        },
        QueueOp::MoveToTop(id) => {
            lemma_position(q.items, id, 0);
            match position_of(q.items, id) {
                Some(k) => {
                    lemma_count_remove(q.items, k);
                    lemma_count_prepend(q.items[k].requeued(), q.items.remove(k));
                    let moved = q.with_moved_to_top(id);
                    assert forall|i: int| 0 <= i < moved.items.len() implies (
                    #[trigger] moved.items[i]).wf() by {
                        if i == 0 {
                        } else if i <= k {
                            assert(moved.items[i] == q.items[i - 1]);
                        } else {
                            assert(moved.items[i] == q.items[i]);
                        }
                    }
                },
                None => {},
            }
            lemma_start_next_preserves(q.with_moved_to_top(id));
        },
        QueueOp::Clear => {},
        QueueOp::Load(items) => {},
        QueueOp::UpdateProgress(id, progress, speed_bps, eta_secs) => {
            lemma_position(q.items, id, 0);
        },
        QueueOp::Finish(id, outcome) => {
            lemma_position(q.items, id, 0);
            match position_of(q.items, id) {
                Some(k) => lemma_update_preserves(q, k, q.items[k].finished(outcome)),
                None => {},
            }
            lemma_start_next_preserves(q.with_finished(id, outcome));
        },
    }
}

/// Supersession: a direct enqueue into a queue that holds one entry for the
/// same package and profile at a lower version leaves the new entry alone in
/// the queue, unless the old one is being downloaded or is completed: then
/// both are in the queue afterwards, the old one first.
pub proof fn lemma_supersession(q: QueueView, held: ItemView, entry: ItemView)
    requires
        q.items == seq![held],
        held.mod_name == entry.mod_name,
        held.profile_name == entry.profile_name,
        version_sign(held.version, entry.version) < 0,
    ensures
        !(held.status is Downloading) && !(held.status is Completed) ==> q.with_superseded_removed(
            entry,
        ).with_pushed(entry).items == seq![entry],
        held.status is Downloading || held.status is Completed ==> q.with_superseded_removed(
            entry,
        ).with_pushed(entry).items == seq![held, entry],
        q.enqueue_direct(entry).items.len() == if held.status is Downloading || held.status
            is Completed {
            2nat
        } else {
            1nat
        },
{
    let kept = without_superseded(q.items, entry.mod_name, entry.profile_name, entry.version);
    assert(q.items.drop_last() == Seq::<ItemView>::empty());
    assert(without_superseded(
        q.items.drop_last(),
        entry.mod_name,
        entry.profile_name,
        entry.version,
    ) == Seq::<ItemView>::empty());
    lemma_first_queued(q.with_superseded_removed(entry).with_pushed(entry).items, 0);
    if held.status is Downloading || held.status is Completed {
        assert(kept == seq![held]);
        assert(kept.push(entry) == seq![held, entry]);
    } else {
        assert(kept == Seq::<ItemView>::empty());
        assert(kept.push(entry) == seq![entry]);
    }
}

/// Restart: an entry that was written to disk while it was being downloaded
/// is taken over as queued, with progress and speed at zero and without an
/// estimate; every other entry is taken over as it is, but for its speed
/// and estimate, which no entry shows after the load; and after the load no
/// entry is being downloaded.
pub proof fn lemma_load_restarts(q: QueueView, items: Seq<ItemView>)
    ensures
        q.load(items).items.len() == items.len(),
        forall|i: int|
            0 <= i < items.len() && (#[trigger] items[i]).status is Downloading ==> {
                &&& q.load(items).items[i].status is Queued
                &&& q.load(items).items[i].progress == 0
                &&& q.load(items).items[i].speed_bps == 0
                &&& q.load(items).items[i].eta_secs is None
                &&& q.load(items).items[i].id == items[i].id
            },
        forall|i: int|
            0 <= i < items.len() && !((#[trigger] items[i]).status is Downloading) ==> q.load(
                items,
            ).items[i] == items[i].stilled(),
        forall|i: int| 0 <= i < items.len() ==> (#[trigger] q.load(items).items[i]).is_still(),
        downloading_count(q.load(items).items) == 0,
{
    lemma_count_zero(q.load(items).items);
}

/// Fresh identifiers: an entry that is enqueued with an identifier that no
/// entry of the queue has is afterwards the last entry of the queue and the
/// only one with that identifier; it holds what was asked for, shows no
/// progress, no speed and no estimate, and is queued, or being downloaded
/// if it was admitted.
pub proof fn lemma_new_entry_is_the_only_one(q: QueueView, entry: ItemView, direct: bool)
    requires
        unused_in(q.items, entry.id),
        entry == ItemView::queued(
            entry.id,
            entry.added_at,
            entry.mod_name,
            entry.version,
            entry.profile_name,
        ),
    ensures
        ({
            let after = if direct {
                q.enqueue_direct(entry)
            } else {
                q.enqueue(entry)
            };
            &&& last_alone_is_new(
                after.items,
                entry.id,
                entry.mod_name,
                entry.version,
                entry.profile_name,
            )
            &&& after.items.last() == entry || after.items.last() == entry.started()
        }),
{
    let kept = if direct {
        q.with_superseded_removed(entry)
    } else {
        q
    };
    if direct {
        lemma_without_superseded(q.items, entry.mod_name, entry.profile_name, entry.version);
        assert forall|i: int| 0 <= i < kept.items.len() implies (#[trigger] kept.items[i]).id
            != entry.id by {
            assert(q.items.contains(kept.items[i]));
            let j = choose|j: int| 0 <= j < q.items.len() && q.items[j] == kept.items[i];
            assert(q.items[j].id != entry.id);
        }
    }
    let pushed = kept.with_pushed(entry);
    assert(pushed.items.last() == entry);
    assert forall|i: int| 0 <= i < pushed.items.len() - 1 implies (#[trigger] pushed.items[i]).id
        != entry.id by {
        assert(pushed.items[i] == kept.items[i]);
    }
    lemma_first_queued(pushed.items, 0);
    match pushed.next_admitted() {
        Some(k) => {
            let after = pushed.start_next();
            assert forall|i: int| 0 <= i < after.items.len() - 1 implies (#[trigger] after.items[i]).id
                != entry.id by {
                if i != k {
                    assert(after.items[i] == pushed.items[i]);
                }
            }
        },
        None => {},
    }
}

/// Failure: a transfer that fails leaves its entry failed with the reason,
/// without speed and estimate, and changes no other entry; what follows is
/// admission alone.
pub proof fn lemma_failure_is_recorded(q: QueueView, id: Seq<char>, reason: Seq<char>)
    requires
        position_of(q.items, id) is Some,
    ensures
        ({
            let k = position_of(q.items, id)->0;
            let after = q.with_finished(id, OutcomeView::Failed(reason));
            &&& 0 <= k < q.items.len()
            &&& after.items.len() == q.items.len()
            &&& after.items[k].status == StatusView::Failed(reason)
            &&& after.items[k].is_still()
            &&& after.items[k].progress == q.items[k].progress
            &&& forall|j: int| 0 <= j < q.items.len() && j != k ==> after.items[j] == q.items[j]
            &&& q.finish(id, OutcomeView::Failed(reason)) == after.start_next()
        }),
{
    lemma_position(q.items, id, 0);
}

/// Stillness: pausing an entry, alone or with all others, leaves it without
/// speed and estimate; so does moving it to the top, unless it is
/// completed; and a well-formed queue shows a speed or an estimate only in
/// the entry that is being downloaded.
pub proof fn lemma_only_the_running_entry_moves(q: QueueView, item: ItemView)
    ensures
        item.status is Queued || item.status is Downloading ==> item.paused().is_still(),
        !(item.status is Completed) ==> item.requeued().is_still(),
        q.wf() ==> forall|i: int|
            0 <= i < q.items.len() && !(#[trigger] q.items[i]).is_downloading()
                ==> q.items[i].is_still(),
{
}

/// Single flight: whatever operations are applied to an empty queue, and in
/// whatever order, after each of them at most one entry is being downloaded.
pub proof fn lemma_single_flight(ops: Seq<QueueOp>, n: int)
    requires
        0 <= n <= ops.len(),
    ensures
        downloading_count(QueueView::empty().apply_all(ops.take(n)).items) <= 1,
    decreases n,
{
    if n > 0 {
        lemma_single_flight(ops, n - 1);
        assert(ops.take(n).drop_last() == ops.take(n - 1));
        lemma_apply_preserves_single_flight(
            QueueView::empty().apply_all(ops.take(n - 1)),
            ops.take(n).last(),
        );
    }
}

} // verus!
