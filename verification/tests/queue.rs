use mod_manager::download_queue::{
    clear_download_queue, enqueue_download, enqueue_download_with, get_download_queue,
    move_to_top, pause_all_downloads, pause_download, remove_from_queue, resume_all_downloads,
    resume_download, DownloadItem, DownloadQueueManager, DownloadStatus, QueueEffect,
    TransferOutcome, PROGRESS_FULL,
};

fn item(id: &str, name: &str, version: &str, profile: &str, status: DownloadStatus) -> DownloadItem {
    DownloadItem {
        id: id.to_string(),
        mod_name: name.to_string(),
        version: version.to_string(),
        profile_name: profile.to_string(),
        progress: 0,
        status,
        added_at: "2024-01-01T00:00:00+00:00".to_string(),
        speed_bps: 0,
        eta_secs: None,
    }
}

fn push(queue: &mut DownloadQueueManager, id: &str, name: &str, version: &str) -> QueueEffect {
    enqueue_download_with(
        queue,
        id.to_string(),
        "2024-01-01T00:00:00+00:00".to_string(),
        name.to_string(),
        version.to_string(),
        "profileX".to_string(),
    )
}

fn push_direct(queue: &mut DownloadQueueManager, id: &str, name: &str, version: &str) -> QueueEffect {
    queue.enqueue_item_direct_with(
        id.to_string(),
        "2024-01-01T00:00:00+00:00".to_string(),
        name.to_string(),
        version.to_string(),
        "profileX".to_string(),
    )
}

fn statuses(queue: &DownloadQueueManager) -> Vec<(String, DownloadStatus)> {
    queue.queue.iter().map(|i| (i.id.clone(), i.status.clone())).collect()
}

fn ids(queue: &DownloadQueueManager) -> Vec<String> {
    queue.queue.iter().map(|i| i.id.clone()).collect()
}

fn downloading(queue: &DownloadQueueManager) -> usize {
    queue.queue.iter().filter(|i| i.status == DownloadStatus::Downloading).count()
}

fn launched(effect: &QueueEffect) -> Option<String> {
    effect.launch.as_ref().map(|i| i.id.clone())
}

#[test]
fn a_new_queue_is_empty_and_open() {
    let queue = DownloadQueueManager::new();
    assert!(queue.queue.is_empty());
    assert!(!queue.paused_all);
    let other = DownloadQueueManager::default();
    assert!(other.queue.is_empty());
    assert!(!other.paused_all);
}

#[test]
fn the_first_enqueue_is_admitted_at_once() {
    let mut queue = DownloadQueueManager::new();
    let effect = push(&mut queue, "a", "modA", "1.0.0");
    assert!(!effect.cancel_active);
    let started = effect.launch.expect("the first entry starts");
    assert_eq!(started.id, "a");
    assert_eq!(started.status, DownloadStatus::Downloading);
    assert_eq!(started.progress, 0);
    assert_eq!(statuses(&queue), vec![("a".to_string(), DownloadStatus::Downloading)]);
}

#[test]
fn later_enqueues_wait_in_order() {
    let mut queue = DownloadQueueManager::new();
    push(&mut queue, "a", "modA", "1.0.0");
    let second = push(&mut queue, "b", "modB", "1.0.0");
    let third = push(&mut queue, "c", "modC", "1.0.0");
    assert!(second.launch.is_none());
    assert!(third.launch.is_none());
    assert_eq!(
        statuses(&queue),
        vec![
            ("a".to_string(), DownloadStatus::Downloading),
            ("b".to_string(), DownloadStatus::Queued),
            ("c".to_string(), DownloadStatus::Queued),
        ]
    );
}

#[test]
fn enqueue_gives_fresh_identifiers() {
    let mut queue = DownloadQueueManager::new();
    let (first, effect) = enqueue_download(
        &mut queue,
        "modA".to_string(),
        "1.0.0".to_string(),
        "profileX".to_string(),
    );
    let (second, _) = enqueue_download(
        &mut queue,
        "modB".to_string(),
        "1.0.0".to_string(),
        "profileX".to_string(),
    );
    assert_eq!(first.chars().count(), 36);
    assert_eq!(second.chars().count(), 36);
    assert_ne!(first, second);
    assert_eq!(launched(&effect), Some(first.clone()));
    assert_eq!(ids(&queue), vec![first, second]);
    assert_eq!(queue.queue[1].mod_name, "modB");
    assert_eq!(queue.queue[1].version, "1.0.0");
    assert_eq!(queue.queue[1].profile_name, "profileX");
    assert_eq!(queue.queue[1].status, DownloadStatus::Queued);
    assert_eq!(queue.queue[1].progress, 0);
    assert_eq!(queue.queue[1].speed_bps, 0);
    assert_eq!(queue.queue[1].eta_secs, None);
    assert!(!queue.queue[1].added_at.is_empty());
}

#[test]
fn an_identifier_that_no_entry_has_is_taken_as_drawn() {
    let mut queue = DownloadQueueManager::new();
    push(&mut queue, "a", "modA", "1.0.0");
    push(&mut queue, "b", "modB", "1.0.0");
    assert_eq!(queue.unused_id("c".to_string()), "c");
    assert_eq!(DownloadQueueManager::new().unused_id("a".to_string()), "a");
}

#[test]
fn an_identifier_that_an_entry_has_is_made_longer_until_none_has_it() {
    let mut queue = DownloadQueueManager::new();
    push(&mut queue, "a", "modA", "1.0.0");
    push(&mut queue, "a0", "modB", "1.0.0");
    push(&mut queue, "b", "modC", "1.0.0");
    let id = queue.unused_id("a".to_string());
    assert_eq!(id, "a00");
    assert!(ids(&queue).iter().all(|held| *held != id));
    assert_eq!(queue.unused_id("b".to_string()), "b0");
}

#[test]
fn many_enqueues_give_identifiers_that_all_differ() {
    let mut queue = DownloadQueueManager::new();
    for n in 0..50 {
        let before = ids(&queue);
        let (id, _) = enqueue_download(
            &mut queue,
            format!("mod{n}"),
            "1.0.0".to_string(),
            "profileX".to_string(),
        );
        assert!(id.chars().count() >= 36);
        assert!(before.iter().all(|held| *held != id));
        assert_eq!(queue.queue.last().map(|i| i.id.clone()), Some(id));
    }
    assert_eq!(queue.queue.len(), 50);
}

#[test]
fn direct_enqueue_gives_fresh_identifiers() {
    let mut queue = DownloadQueueManager::new();
    let (first, effect) =
        queue.enqueue_item_direct("modA".to_string(), "1.0.0".to_string(), "profileX".to_string());
    let (second, _) =
        queue.enqueue_item_direct("modB".to_string(), "1.0.0".to_string(), "profileX".to_string());
    assert_eq!(first.chars().count(), 36);
    assert_ne!(first, second);
    assert_eq!(launched(&effect), Some(first.clone()));
    assert_eq!(ids(&queue), vec![first, second]);
}

#[test]
fn a_higher_version_supersedes_a_queued_lower_one() {
    let mut queue = DownloadQueueManager::new();
    queue.paused_all = true;
    push_direct(&mut queue, "old", "modA", "1.0.0");
    assert_eq!(statuses(&queue), vec![("old".to_string(), DownloadStatus::Queued)]);
    push_direct(&mut queue, "new", "modA", "2.0.0");
    assert_eq!(statuses(&queue), vec![("new".to_string(), DownloadStatus::Queued)]);
    assert_eq!(queue.queue[0].version, "2.0.0");
    assert_eq!(queue.queue[0].mod_name, "modA");
    assert_eq!(queue.queue[0].profile_name, "profileX");
}

#[test]
fn a_downloading_lower_version_is_not_superseded() {
    let mut queue = DownloadQueueManager::new();
    push_direct(&mut queue, "old", "modA", "1.0.0");
    assert_eq!(statuses(&queue), vec![("old".to_string(), DownloadStatus::Downloading)]);
    let effect = push_direct(&mut queue, "new", "modA", "2.0.0");
    assert!(effect.launch.is_none());
    assert_eq!(
        statuses(&queue),
        vec![
            ("old".to_string(), DownloadStatus::Downloading),
            ("new".to_string(), DownloadStatus::Queued),
        ]
    );
}

#[test]
fn a_completed_lower_version_is_not_superseded() {
    let mut queue = DownloadQueueManager::new();
    queue.load_persist(vec![item("done", "modA", "1.0.0", "profileX", DownloadStatus::Completed)]);
    push_direct(&mut queue, "new", "modA", "2.0.0");
    assert_eq!(ids(&queue), vec!["done".to_string(), "new".to_string()]);
}

#[test]
fn paused_and_failed_lower_versions_are_superseded() {
    let mut queue = DownloadQueueManager::new();
    queue.load_persist(vec![
        item("p", "modA", "1.0.0", "profileX", DownloadStatus::Paused),
        item("f", "modA", "1.5", "profileX", DownloadStatus::Failed("x".to_string())),
        item("r", "modA", "0.1", "profileX", DownloadStatus::Removed),
    ]);
    push_direct(&mut queue, "new", "modA", "2.0.0");
    assert_eq!(ids(&queue), vec!["new".to_string()]);
}

#[test]
fn supersession_is_per_package_and_profile_and_only_for_lower_versions() {
    let mut queue = DownloadQueueManager::new();
    queue.paused_all = true;
    queue.load_persist(vec![
        item("other-mod", "modB", "1.0.0", "profileX", DownloadStatus::Queued),
        item("other-profile", "modA", "1.0.0", "profileY", DownloadStatus::Queued),
        item("same", "modA", "2.0", "profileX", DownloadStatus::Queued),
        item("higher", "modA", "3.0.0", "profileX", DownloadStatus::Queued),
        item("lower", "modA", "1.9.9", "profileX", DownloadStatus::Queued),
    ]);
    push_direct(&mut queue, "new", "modA", "2.0.0");
    assert_eq!(
        ids(&queue),
        vec![
            "other-mod".to_string(),
            "other-profile".to_string(),
            "same".to_string(),
            "higher".to_string(),
            "new".to_string(),
        ]
    );
}

#[test]
fn a_user_enqueue_supersedes_nothing() {
    let mut queue = DownloadQueueManager::new();
    queue.paused_all = true;
    push(&mut queue, "old", "modA", "1.0.0");
    push(&mut queue, "new", "modA", "2.0.0");
    assert_eq!(ids(&queue), vec!["old".to_string(), "new".to_string()]);
}

#[test]
fn admission_does_nothing_while_paused_or_busy() {
    let mut queue = DownloadQueueManager::new();
    queue.paused_all = true;
    push(&mut queue, "a", "modA", "1.0.0");
    assert!(DownloadQueueManager::start_next_if_idle_owned(&mut queue).is_none());
    assert_eq!(downloading(&queue), 0);
    queue.paused_all = false;
    let started = DownloadQueueManager::start_next_if_idle_owned(&mut queue);
    assert_eq!(started.map(|i| i.id), Some("a".to_string()));
    push(&mut queue, "b", "modB", "1.0.0");
    assert!(DownloadQueueManager::start_next_if_idle_owned(&mut queue).is_none());
    assert_eq!(downloading(&queue), 1);
}

#[test]
fn admission_takes_the_first_queued_entry_and_resets_its_progress() {
    let mut queue = DownloadQueueManager::new();
    let mut half = item("b", "modB", "1", "p", DownloadStatus::Queued);
    half.progress = 500_000;
    queue.load_persist(vec![
        item("a", "modA", "1", "p", DownloadStatus::Paused),
        half,
        item("c", "modC", "1", "p", DownloadStatus::Queued),
    ]);
    let started = DownloadQueueManager::start_next_if_idle_owned(&mut queue).expect("b starts");
    assert_eq!(started.id, "b");
    assert_eq!(started.progress, 0);
    assert_eq!(started.speed_bps, 0);
    assert_eq!(started.eta_secs, None);
    assert_eq!(queue.queue[1].status, DownloadStatus::Downloading);
    assert_eq!(queue.queue[1].progress, 0);
    assert_eq!(queue.queue[2].status, DownloadStatus::Queued);
}

#[test]
fn a_persisted_download_restarts_as_queued() {
    let mut running = item("a", "modA", "1.0.0", "p", DownloadStatus::Downloading);
    running.progress = 420_000;
    running.speed_bps = 123_456;
    running.eta_secs = Some(9);
    let mut paused = item("b", "modB", "1.0.0", "p", DownloadStatus::Paused);
    paused.progress = 370_000;
    paused.speed_bps = 5;
    paused.eta_secs = Some(60);
    let mut queue = DownloadQueueManager::new();
    queue.load_persist(vec![running, paused]);
    assert_eq!(queue.queue[0].status, DownloadStatus::Queued);
    assert_eq!(queue.queue[0].progress, 0);
    assert_eq!(queue.queue[0].speed_bps, 0);
    assert_eq!(queue.queue[0].eta_secs, None);
    assert_eq!(queue.queue[0].id, "a");
    assert_eq!(queue.queue[1].status, DownloadStatus::Paused);
    assert_eq!(queue.queue[1].progress, 370_000);
    assert_eq!(queue.queue[1].speed_bps, 0);
    assert_eq!(queue.queue[1].eta_secs, None);
    assert_eq!(queue.queue[1].id, "b");
    assert_eq!(downloading(&queue), 0);
}

#[test]
fn loading_replaces_the_queue_and_keeps_the_pause_flag() {
    let mut queue = DownloadQueueManager::new();
    push(&mut queue, "x", "modX", "1");
    queue.paused_all = true;
    queue.load_persist(vec![item("a", "modA", "1", "p", DownloadStatus::Queued)]);
    assert_eq!(ids(&queue), vec!["a".to_string()]);
    assert!(queue.paused_all);
    queue.load_persist(Vec::new());
    assert!(queue.queue.is_empty());
}

#[test]
fn pause_all_pauses_and_blocks_admission() {
    let mut queue = DownloadQueueManager::new();
    push(&mut queue, "a", "modA", "1");
    push(&mut queue, "b", "modB", "1");
    queue.queue.push(item("c", "modC", "1", "p", DownloadStatus::Completed));
    queue.queue.push(item("d", "modD", "1", "p", DownloadStatus::Failed("boom".to_string())));
    let effect = pause_all_downloads(&mut queue);
    assert!(effect.cancel_active);
    assert!(effect.launch.is_none());
    assert!(queue.paused_all);
    assert_eq!(
        statuses(&queue),
        vec![
            ("a".to_string(), DownloadStatus::Paused),
            ("b".to_string(), DownloadStatus::Paused),
            ("c".to_string(), DownloadStatus::Completed),
            ("d".to_string(), DownloadStatus::Failed("boom".to_string())),
        ]
    );
    let again = pause_all_downloads(&mut queue);
    assert!(!again.cancel_active);
    let late = push(&mut queue, "e", "modE", "1");
    assert!(late.launch.is_none());
    assert_eq!(queue.queue[4].status, DownloadStatus::Queued);
}

#[test]
fn resume_all_queues_paused_entries_and_admits_the_first() {
    let mut queue = DownloadQueueManager::new();
    push(&mut queue, "a", "modA", "1");
    push(&mut queue, "b", "modB", "1");
    queue.queue.push(item("f", "modF", "1", "p", DownloadStatus::Failed("boom".to_string())));
    pause_all_downloads(&mut queue);
    let effect = resume_all_downloads(&mut queue);
    assert!(!effect.cancel_active);
    assert_eq!(launched(&effect), Some("a".to_string()));
    assert!(!queue.paused_all);
    assert_eq!(
        statuses(&queue),
        vec![
            ("a".to_string(), DownloadStatus::Downloading),
            ("b".to_string(), DownloadStatus::Queued),
            ("f".to_string(), DownloadStatus::Failed("boom".to_string())),
        ]
    );
}

#[test]
fn pausing_the_running_entry_cancels_its_transfer() {
    let mut queue = DownloadQueueManager::new();
    push(&mut queue, "a", "modA", "1");
    push(&mut queue, "b", "modB", "1");
    let effect = pause_download(&mut queue, "a");
    assert!(effect.cancel_active);
    assert!(effect.launch.is_none());
    assert_eq!(
        statuses(&queue),
        vec![("a".to_string(), DownloadStatus::Paused), ("b".to_string(), DownloadStatus::Queued)]
    );
}

#[test]
fn pausing_a_waiting_entry_cancels_nothing() {
    let mut queue = DownloadQueueManager::new();
    push(&mut queue, "a", "modA", "1");
    push(&mut queue, "b", "modB", "1");
    let effect = pause_download(&mut queue, "b");
    assert!(!effect.cancel_active);
    assert_eq!(
        statuses(&queue),
        vec![
            ("a".to_string(), DownloadStatus::Downloading),
            ("b".to_string(), DownloadStatus::Paused),
        ]
    );
}

#[test]
fn pausing_leaves_finished_and_unknown_entries_alone() {
    let mut queue = DownloadQueueManager::new();
    queue.load_persist(vec![
        item("c", "modC", "1", "p", DownloadStatus::Completed),
        item("f", "modF", "1", "p", DownloadStatus::Failed("boom".to_string())),
        item("r", "modR", "1", "p", DownloadStatus::Removed),
        item("p", "modP", "1", "p", DownloadStatus::Paused),
    ]);
    for id in ["c", "f", "r", "p", "missing"] {
        let effect = pause_download(&mut queue, id);
        assert!(!effect.cancel_active);
    }
    assert_eq!(
        statuses(&queue),
        vec![
            ("c".to_string(), DownloadStatus::Completed),
            ("f".to_string(), DownloadStatus::Failed("boom".to_string())),
            ("r".to_string(), DownloadStatus::Removed),
            ("p".to_string(), DownloadStatus::Paused),
        ]
    );
}

#[test]
fn resume_queues_a_paused_or_failed_entry_and_runs_admission() {
    let mut queue = DownloadQueueManager::new();
    queue.load_persist(vec![
        item("p", "modP", "1", "p", DownloadStatus::Paused),
        item("f", "modF", "1", "p", DownloadStatus::Failed("boom".to_string())),
        item("c", "modC", "1", "p", DownloadStatus::Completed),
    ]);
    let first = resume_download(&mut queue, "f");
    assert_eq!(launched(&first), Some("f".to_string()));
    let second = resume_download(&mut queue, "p");
    assert!(second.launch.is_none());
    let third = resume_download(&mut queue, "c");
    assert!(third.launch.is_none());
    assert_eq!(
        statuses(&queue),
        vec![
            ("p".to_string(), DownloadStatus::Queued),
            ("f".to_string(), DownloadStatus::Downloading),
            ("c".to_string(), DownloadStatus::Completed),
        ]
    );
}

#[test]
fn removing_the_running_entry_cancels_it_and_admits_the_next() {
    let mut queue = DownloadQueueManager::new();
    push(&mut queue, "a", "modA", "1");
    push(&mut queue, "b", "modB", "1");
    let effect = remove_from_queue(&mut queue, "a");
    assert!(effect.cancel_active);
    assert_eq!(launched(&effect), Some("b".to_string()));
    assert_eq!(statuses(&queue), vec![("b".to_string(), DownloadStatus::Downloading)]);
}

#[test]
fn removing_a_waiting_entry_cancels_nothing() {
    let mut queue = DownloadQueueManager::new();
    push(&mut queue, "a", "modA", "1");
    push(&mut queue, "b", "modB", "1");
    push(&mut queue, "c", "modC", "1");
    let effect = remove_from_queue(&mut queue, "b");
    assert!(!effect.cancel_active);
    assert!(effect.launch.is_none());
    assert_eq!(ids(&queue), vec!["a".to_string(), "c".to_string()]);
    let none = remove_from_queue(&mut queue, "missing");
    assert!(!none.cancel_active);
    assert_eq!(ids(&queue), vec!["a".to_string(), "c".to_string()]);
}

#[test]
fn removing_takes_every_entry_with_the_identifier() {
    let mut queue = DownloadQueueManager::new();
    queue.paused_all = true;
    queue.load_persist(vec![
        item("x", "modA", "1", "p", DownloadStatus::Queued),
        item("y", "modB", "1", "p", DownloadStatus::Queued),
        item("x", "modC", "1", "p", DownloadStatus::Paused),
    ]);
    remove_from_queue(&mut queue, "x");
    assert_eq!(ids(&queue), vec!["y".to_string()]);
}

#[test]
fn move_to_top_relocates_and_requeues() {
    let mut queue = DownloadQueueManager::new();
    push(&mut queue, "a", "modA", "1");
    push(&mut queue, "b", "modB", "1");
    queue.queue.push(item("f", "modF", "1", "p", DownloadStatus::Failed("boom".to_string())));
    let effect = move_to_top(&mut queue, "f");
    assert!(!effect.cancel_active);
    assert!(effect.launch.is_none());
    assert_eq!(
        statuses(&queue),
        vec![
            ("f".to_string(), DownloadStatus::Queued),
            ("a".to_string(), DownloadStatus::Downloading),
            ("b".to_string(), DownloadStatus::Queued),
        ]
    );
}

#[test]
fn move_to_top_keeps_a_completed_entry_completed() {
    let mut queue = DownloadQueueManager::new();
    queue.load_persist(vec![
        item("q", "modQ", "1", "p", DownloadStatus::Queued),
        item("c", "modC", "1", "p", DownloadStatus::Completed),
    ]);
    let effect = move_to_top(&mut queue, "c");
    assert_eq!(launched(&effect), Some("q".to_string()));
    assert_eq!(
        statuses(&queue),
        vec![
            ("c".to_string(), DownloadStatus::Completed),
            ("q".to_string(), DownloadStatus::Downloading),
        ]
    );
}

#[test]
fn move_to_top_of_the_running_entry_cancels_its_transfer_and_starts_it_again() {
    let mut queue = DownloadQueueManager::new();
    push(&mut queue, "a", "modA", "1");
    push(&mut queue, "b", "modB", "1");
    queue.update_progress("a", 600_000, 2048, Some(3));
    let effect = move_to_top(&mut queue, "a");
    assert!(effect.cancel_active);
    assert_eq!(launched(&effect), Some("a".to_string()));
    assert_eq!(downloading(&queue), 1);
    assert_eq!(queue.queue[0].id, "a");
    assert_eq!(queue.queue[0].status, DownloadStatus::Downloading);
    assert_eq!(queue.queue[0].progress, 0);
    assert_eq!(queue.queue[0].speed_bps, 0);
    assert_eq!(queue.queue[0].eta_secs, None);
    let stopped = queue.finish_transfer("a", TransferOutcome::Cancelled);
    assert!(stopped.launch.is_none());
    assert_eq!(queue.queue[0].status, DownloadStatus::Downloading);
    let missing = move_to_top(&mut queue, "missing");
    assert!(!missing.cancel_active);
    assert!(missing.launch.is_none());
    assert_eq!(ids(&queue), vec!["a".to_string(), "b".to_string()]);
}

#[test]
fn move_to_top_of_a_waiting_entry_cancels_nothing() {
    let mut queue = DownloadQueueManager::new();
    push(&mut queue, "a", "modA", "1");
    push(&mut queue, "b", "modB", "1");
    push(&mut queue, "c", "modC", "1");
    let effect = move_to_top(&mut queue, "c");
    assert!(!effect.cancel_active);
    assert!(effect.launch.is_none());
    assert_eq!(ids(&queue), vec!["c".to_string(), "a".to_string(), "b".to_string()]);
    assert_eq!(queue.queue[1].status, DownloadStatus::Downloading);
}

#[test]
fn clear_empties_the_queue_and_blocks_admission() {
    let mut queue = DownloadQueueManager::new();
    push(&mut queue, "a", "modA", "1");
    push(&mut queue, "b", "modB", "1");
    let effect = clear_download_queue(&mut queue);
    assert!(effect.cancel_active);
    assert!(effect.launch.is_none());
    assert!(queue.queue.is_empty());
    assert!(queue.paused_all);
    let again = clear_download_queue(&mut queue);
    assert!(!again.cancel_active);
}

#[test]
fn the_snapshot_is_a_copy_in_queue_order() {
    let mut queue = DownloadQueueManager::new();
    push(&mut queue, "a", "modA", "1");
    push(&mut queue, "b", "modB", "2");
    let snapshot = get_download_queue(&queue);
    assert_eq!(snapshot.len(), 2);
    assert_eq!(snapshot[0].id, "a");
    assert_eq!(snapshot[0].status, DownloadStatus::Downloading);
    assert_eq!(snapshot[1].id, "b");
    assert_eq!(snapshot[1].version, "2");
    remove_from_queue(&mut queue, "a");
    assert_eq!(snapshot.len(), 2);
}

#[test]
fn progress_is_recorded_for_the_entry() {
    let mut queue = DownloadQueueManager::new();
    push(&mut queue, "a", "modA", "1");
    push(&mut queue, "b", "modB", "1");
    queue.update_progress("a", 250_000, 1_048_576, Some(12));
    assert_eq!(queue.queue[0].progress, 250_000);
    assert_eq!(queue.queue[0].speed_bps, 1_048_576);
    assert_eq!(queue.queue[0].eta_secs, Some(12));
    assert_eq!(queue.queue[0].status, DownloadStatus::Downloading);
    assert_eq!(queue.queue[1].progress, 0);
    queue.update_progress("missing", 1, 1, None);
    assert_eq!(queue.queue[1].progress, 0);
}

#[test]
fn a_completed_transfer_fills_the_entry_and_admits_the_next() {
    let mut queue = DownloadQueueManager::new();
    push(&mut queue, "a", "modA", "1");
    push(&mut queue, "b", "modB", "1");
    queue.update_progress("a", 990_000, 5000, Some(1));
    let effect = queue.finish_transfer("a", TransferOutcome::Completed);
    assert!(!effect.cancel_active);
    assert_eq!(launched(&effect), Some("b".to_string()));
    assert_eq!(queue.queue[0].status, DownloadStatus::Completed);
    assert_eq!(queue.queue[0].progress, PROGRESS_FULL);
    assert_eq!(queue.queue[0].speed_bps, 0);
    assert_eq!(queue.queue[0].eta_secs, None);
    assert_eq!(queue.queue[1].status, DownloadStatus::Downloading);
}

#[test]
fn a_failed_transfer_records_its_reason_and_admits_the_next() {
    let mut queue = DownloadQueueManager::new();
    push(&mut queue, "a", "modA", "1");
    push(&mut queue, "b", "modB", "1");
    let effect = queue.finish_transfer("a", TransferOutcome::Failed("Erro HTTP: 404".to_string()));
    assert_eq!(launched(&effect), Some("b".to_string()));
    assert_eq!(queue.queue[0].status, DownloadStatus::Failed("Erro HTTP: 404".to_string()));
    assert_eq!(downloading(&queue), 1);
}

#[test]
fn a_cancelled_transfer_leaves_a_paused_entry_paused() {
    let mut queue = DownloadQueueManager::new();
    push(&mut queue, "a", "modA", "1");
    push(&mut queue, "b", "modB", "1");
    pause_download(&mut queue, "a");
    let effect = queue.finish_transfer("a", TransferOutcome::Cancelled);
    assert_eq!(launched(&effect), Some("b".to_string()));
    assert_eq!(queue.queue[0].status, DownloadStatus::Paused);
    assert_eq!(queue.queue[1].status, DownloadStatus::Downloading);
}

#[test]
fn a_cancelled_transfer_changes_no_status() {
    let mut queue = DownloadQueueManager::new();
    push(&mut queue, "a", "modA", "1");
    push(&mut queue, "b", "modB", "1");
    pause_all_downloads(&mut queue);
    resume_all_downloads(&mut queue);
    let effect = queue.finish_transfer("a", TransferOutcome::Cancelled);
    assert!(effect.launch.is_none());
    assert_eq!(
        statuses(&queue),
        vec![
            ("a".to_string(), DownloadStatus::Downloading),
            ("b".to_string(), DownloadStatus::Queued),
        ]
    );
}

#[test]
fn a_failed_transfer_shows_no_speed_and_no_estimate() {
    let mut queue = DownloadQueueManager::new();
    push(&mut queue, "a", "modA", "1");
    push(&mut queue, "b", "modB", "1");
    queue.update_progress("a", 400_000, 5000, Some(7));
    let effect = queue.finish_transfer("a", TransferOutcome::Failed("Erro no stream".to_string()));
    assert_eq!(launched(&effect), Some("b".to_string()));
    assert_eq!(queue.queue[0].status, DownloadStatus::Failed("Erro no stream".to_string()));
    assert_eq!(queue.queue[0].progress, 400_000);
    assert_eq!(queue.queue[0].speed_bps, 0);
    assert_eq!(queue.queue[0].eta_secs, None);
    assert_eq!(queue.queue[1].status, DownloadStatus::Downloading);
    assert_eq!(queue.queue[1].progress, 0);
}

#[test]
fn a_paused_entry_shows_no_speed_and_no_estimate() {
    let mut queue = DownloadQueueManager::new();
    push(&mut queue, "a", "modA", "1");
    queue.update_progress("a", 400_000, 5000, Some(7));
    pause_download(&mut queue, "a");
    assert_eq!(queue.queue[0].status, DownloadStatus::Paused);
    assert_eq!(queue.queue[0].progress, 400_000);
    assert_eq!(queue.queue[0].speed_bps, 0);
    assert_eq!(queue.queue[0].eta_secs, None);
    let mut all = DownloadQueueManager::new();
    push(&mut all, "a", "modA", "1");
    push(&mut all, "b", "modB", "1");
    all.update_progress("a", 400_000, 5000, Some(7));
    pause_all_downloads(&mut all);
    assert_eq!(all.queue[0].progress, 400_000);
    assert_eq!(all.queue[0].speed_bps, 0);
    assert_eq!(all.queue[0].eta_secs, None);
    assert_eq!(all.queue[1].speed_bps, 0);
}

#[test]
fn only_the_running_entry_takes_figures() {
    let mut queue = DownloadQueueManager::new();
    push(&mut queue, "a", "modA", "1");
    push(&mut queue, "b", "modB", "1");
    queue.update_progress("b", 400_000, 5000, Some(7));
    assert_eq!(queue.queue[1].progress, 0);
    assert_eq!(queue.queue[1].speed_bps, 0);
    assert_eq!(queue.queue[1].eta_secs, None);
    pause_download(&mut queue, "a");
    queue.update_progress("a", 400_000, 5000, Some(7));
    assert_eq!(queue.queue[0].progress, 0);
    assert_eq!(queue.queue[0].speed_bps, 0);
}

#[test]
fn the_outcome_of_a_removed_entry_only_runs_admission() {
    let mut queue = DownloadQueueManager::new();
    queue.paused_all = true;
    push(&mut queue, "b", "modB", "1");
    queue.paused_all = false;
    let effect = queue.finish_transfer("gone", TransferOutcome::Completed);
    assert_eq!(launched(&effect), Some("b".to_string()));
}

#[test]
fn at_most_one_entry_downloads_whatever_is_done() {
    let mut queue = DownloadQueueManager::new();
    let mut seed: u64 = 0x2545_f491_4f6c_dd1d;
    let mut next = move |n: u64| {
        seed ^= seed << 13;
        seed ^= seed >> 7;
        seed ^= seed << 17;
        seed % n
    };
    let names = ["modA", "modB", "modC"];
    let versions = ["1.0.0", "1.1", "2.0.0", "0.9"];
    let mut made = 0u32;
    for step in 0..4000 {
        let pick = format!("id{}", next(u64::from(made) + 2));
        match next(13) {
            0 | 1 => {
                made += 1;
                push(&mut queue, &format!("id{made}"), names[next(3) as usize], versions[next(4) as usize]);
            }
            2 | 3 => {
                made += 1;
                push_direct(&mut queue, &format!("id{made}"), names[next(3) as usize], versions[next(4) as usize]);
            }
            4 => {
                pause_all_downloads(&mut queue);
            }
            5 => {
                resume_all_downloads(&mut queue);
            }
            6 => {
                pause_download(&mut queue, &pick);
            }
            7 => {
                resume_download(&mut queue, &pick);
            }
            8 => {
                remove_from_queue(&mut queue, &pick);
            }
            9 => {
                move_to_top(&mut queue, &pick);
            }
            10 => {
                let outcome = match next(3) {
                    0 => TransferOutcome::Completed,
                    1 => TransferOutcome::Failed("boom".to_string()),
                    _ => TransferOutcome::Cancelled,
                };
                queue.finish_transfer(&pick, outcome);
            }
            11 => {
                if next(40) == 0 {
                    clear_download_queue(&mut queue);
                } else {
                    DownloadQueueManager::start_next_if_idle_owned(&mut queue);
                }
            }
            _ => {
                let snapshot = get_download_queue(&queue);
                queue.load_persist(snapshot);
                queue.update_progress(&pick, 10, 10, None);
            }
        }
        assert!(downloading(&queue) <= 1, "after step {step}");
    }
}

#[test]
fn statuses_compare_by_kind_and_reason() {
    assert_eq!(DownloadStatus::Queued, DownloadStatus::Queued);
    assert_ne!(DownloadStatus::Queued, DownloadStatus::Paused);
    assert_eq!(DownloadStatus::Failed("a".to_string()), DownloadStatus::Failed("a".to_string()));
    assert_ne!(DownloadStatus::Failed("a".to_string()), DownloadStatus::Failed("b".to_string()));
    assert_ne!(DownloadStatus::Failed("a".to_string()), DownloadStatus::Completed);
    assert_ne!(DownloadStatus::Removed, DownloadStatus::Downloading);
    let copy = DownloadStatus::Failed("a".to_string()).clone();
    assert_eq!(copy, DownloadStatus::Failed("a".to_string()));
}
