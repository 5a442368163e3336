use mod_manager::dependency_resolver::{
    dependency_count, enqueue_plan, Failure, PendingEntry, Release, ResolveError, ResolveRequest,
    ResolveRun,
};
use mod_manager::download_queue::{DownloadQueueManager, DownloadStatus};
use mod_manager::resolve_model::ResolveStage;
use std::collections::HashMap;

fn release(version: &str, platform: &str, dependencies: &[&str]) -> Release {
    Release {
        version: version.to_string(),
        released_at: "2024-01-01T00:00:00Z".to_string(),
        factorio_version: platform.to_string(),
        dependencies: Some(dependencies.iter().map(|d| d.to_string()).collect()),
    }
}

fn pair(name: &str, version: &str) -> (String, String) {
    (name.to_string(), version.to_string())
}

struct Catalog {
    packages: HashMap<String, Vec<Release>>,
    fetched: Vec<String>,
}

impl Catalog {
    fn new(packages: Vec<(&str, Vec<Release>)>) -> Catalog {
        Catalog {
            packages: packages.into_iter().map(|(n, r)| (n.to_string(), r)).collect(),
            fetched: Vec::new(),
        }
    }

    fn resolve(&mut self, root: &str, version: &str) -> Result<ResolveRun, ResolveError> {
        let mut run = ResolveRun::new(root.to_string(), version.to_string());
        while let Some(entry) = run.next_pending() {
            self.fetched.push(entry.name.clone());
            match self.packages.get(&entry.name) {
                Some(releases) => {
                    run.expand(&entry, releases)?;
                }
                None => return Err(run.fetch_failed(&entry, "Erro HTTP: 404 Not Found".to_string())),
            }
        }
        Ok(run)
    }
}

#[test]
fn a_root_with_one_dependency_gives_a_plan_of_two() {
    let mut catalog = Catalog::new(vec![
        ("example-mod", vec![release("1.0.0", "1.1", &["base >= 1.1.0", "lib-a >= 0.5.0"])]),
        (
            "lib-a",
            vec![
                release("0.4.0", "1.1", &[]),
                release("0.5.2", "1.1", &[]),
                release("0.9.0", "2.0", &[]),
            ],
        ),
    ]);
    let run = catalog.resolve("example-mod", "1.0.0").expect("the plan is found");
    assert_eq!(run.plan(), vec![pair("example-mod", "1.0.0"), pair("lib-a", "0.5.2")]);
    assert_eq!(dependency_count(run.plan().len()), 1);
    assert_eq!(catalog.fetched, vec!["example-mod", "lib-a"]);
}

#[test]
fn a_package_reached_twice_is_expanded_once() {
    let mut catalog = Catalog::new(vec![
        ("root", vec![release("1.0.0", "1.1", &["left", "right", "shared >= 1.0.0"])]),
        ("left", vec![release("1.0.0", "1.1", &["shared >= 2.0.0"])]),
        (
            "right",
            vec![release("1.0.0", "1.1", &["shared >= 3.0.0", "left >= 9"]), release("1.1.0", "2.0", &[])],
        ),
        (
            "shared",
            vec![release("1.5.0", "1.1", &[]), release("3.5.0", "2.0", &[]), release("1.2.0", "1.1", &[])],
        ),
    ]);
    let run = catalog.resolve("root", "1.0.0").expect("the plan is found");
    assert_eq!(
        run.plan(),
        vec![
            pair("root", "1.0.0"),
            pair("left", "1.0.0"),
            pair("right", "1.0.0"),
            pair("shared", "1.5.0"),
        ]
    );
    assert_eq!(catalog.fetched, vec!["root", "left", "right", "shared"]);
    assert_eq!(
        run.required,
        vec![
            pair("root", "1.0.0"),
            pair("left", "9"),
            pair("right", "0.0.1"),
            pair("shared", "3.0.0"),
        ]
    );
    assert_eq!(run.parents, vec![pair("left", "root"), pair("right", "root"), pair("shared", "root")]);
    assert!(run.pending.is_empty());
}

#[test]
fn the_requirement_is_bookkeeping_only() {
    let mut catalog = Catalog::new(vec![
        ("root", vec![release("1.0.0", "1.1", &["lib >= 5.0.0"])]),
        ("lib", vec![release("0.1.0", "1.1", &[])]),
    ]);
    let run = catalog.resolve("root", "1.0.0").expect("the plan is found");
    assert_eq!(run.plan(), vec![pair("root", "1.0.0"), pair("lib", "0.1.0")]);
    assert_eq!(run.required[1], pair("lib", "5.0.0"));
}

#[test]
fn optional_and_incompatible_dependencies_are_not_followed() {
    let mut catalog = Catalog::new(vec![(
        "root",
        vec![release("1.0.0", "1.1", &["? opt", "(?) hidden >= 1", "! bad", "(!) worse", "base"])],
    )]);
    let run = catalog.resolve("root", "1.0.0").expect("the plan is found");
    assert_eq!(run.plan(), vec![pair("root", "1.0.0")]);
    assert_eq!(dependency_count(1), 0);
    assert_eq!(dependency_count(0), 0);
    assert_eq!(catalog.fetched, vec!["root"]);
    assert_eq!(run.required, vec![pair("root", "1.0.0")]);
}

#[test]
fn a_release_without_declarations_has_no_dependencies() {
    let mut root = release("1.0.0", "1.1", &[]);
    root.dependencies = None;
    let mut catalog = Catalog::new(vec![("root", vec![root])]);
    let run = catalog.resolve("root", "1.0.0").expect("the plan is found");
    assert_eq!(run.plan(), vec![pair("root", "1.0.0")]);
}

#[test]
fn cycles_end() {
    let mut catalog = Catalog::new(vec![
        ("a", vec![release("1.0.0", "1.1", &["b"])]),
        ("b", vec![release("2.0.0", "1.1", &["a >= 7", "b"])]),
    ]);
    let run = catalog.resolve("a", "1.0.0").expect("the plan is found");
    assert_eq!(run.plan(), vec![pair("a", "1.0.0"), pair("b", "2.0.0")]);
    assert_eq!(catalog.fetched, vec!["a", "b"]);
    assert_eq!(run.required, vec![pair("a", "7"), pair("b", "0.0.1")]);
}

#[test]
fn the_latest_compatible_release_is_taken_and_of_equal_ones_the_last() {
    let mut catalog = Catalog::new(vec![
        ("root", vec![release("1.0.0", "1.1", &["lib"])]),
        (
            "lib",
            vec![
                release("1.10.0", "1.1", &["first"]),
                release("1.2.0", "1.1", &[]),
                release("1.10", "1.1", &["second"]),
                release("2.0.0", "2.0", &[]),
                release("1.9.9", "1.1", &[]),
            ],
        ),
        ("second", vec![release("0.1", "1.1", &[])]),
    ]);
    let run = catalog.resolve("root", "1.0.0").expect("the plan is found");
    assert_eq!(
        run.plan(),
        vec![pair("root", "1.0.0"), pair("lib", "1.10"), pair("second", "0.1")]
    );
}

#[test]
fn the_root_takes_the_first_release_with_its_version() {
    let mut catalog = Catalog::new(vec![
        (
            "root",
            vec![
                release("2.0.0", "1.1", &["wrong"]),
                release("1.0.0", "0.17", &["old-lib"]),
                release("1.0.0", "1.1", &["wrong"]),
            ],
        ),
        ("old-lib", vec![release("3", "1.1", &[]), release("2", "0.17", &[])]),
    ]);
    let run = catalog.resolve("root", "1.0.0").expect("the plan is found");
    assert_eq!(run.plan(), vec![pair("root", "1.0.0"), pair("old-lib", "2")]);
}

#[test]
fn a_missing_root_version_gives_the_run_up() {
    let mut catalog = Catalog::new(vec![("root", vec![release("1.0.0", "1.1", &[])])]);
    let error = catalog.resolve("root", "1.0").expect_err("no such release");
    assert!(matches!(error.kind, Failure::VersionNotFound));
    assert_eq!(error.mod_name, "root");
    assert_eq!(error.requirement, "1.0");
    assert_eq!(error.parent_mod, None);
    assert_eq!(error.stage(), ResolveStage::SelectRelease);
    assert_eq!(error.stage().name(), "select_release");
    assert_eq!(error.message(), "Versão 1.0 não encontrada para root");
}

#[test]
fn a_dependency_without_a_compatible_release_gives_the_run_up() {
    let mut catalog = Catalog::new(vec![
        ("root", vec![release("1.0.0", "1.1", &["lib >= 0.5.0"])]),
        ("lib", vec![release("0.9.0", "2.0", &[])]),
    ]);
    let error = catalog.resolve("root", "1.0.0").expect_err("no release for 1.1");
    assert!(matches!(&error.kind, Failure::NoCompatibleRelease(p) if p == "1.1"));
    assert_eq!(error.mod_name, "lib");
    assert_eq!(error.requirement, "0.5.0");
    assert_eq!(error.parent_mod, Some("root".to_string()));
    assert_eq!(error.stage(), ResolveStage::SelectRelease);
    assert_eq!(
        error.message(),
        "Nenhuma versão encontrada para lib compatível com Factorio 1.1 (requisito '0.5.0', pai 'root')"
    );
}

#[test]
fn a_failed_fetch_gives_the_run_up() {
    let mut catalog = Catalog::new(vec![("root", vec![release("1.0.0", "1.1", &["gone >= 2"])])]);
    let error = catalog.resolve("root", "1.0.0").expect_err("gone cannot be fetched");
    assert!(matches!(&error.kind, Failure::Fetch(c) if c == "Erro HTTP: 404 Not Found"));
    assert_eq!(error.stage(), ResolveStage::Fetch);
    assert_eq!(error.stage().name(), "fetch");
    assert_eq!(
        error.message(),
        "Falha ao buscar metadados do mod 'gone' (requisito '2', pai 'root'): Erro HTTP: 404 Not Found"
    );
    let mut empty = Catalog::new(vec![]);
    let error = empty.resolve("root", "1.0.0").expect_err("root cannot be fetched");
    assert_eq!(
        error.message(),
        "Falha ao buscar metadados do mod 'root' (requisito '1.0.0'): Erro HTTP: 404 Not Found"
    );
}

#[test]
fn an_entry_without_the_platform_of_its_parent_gives_the_run_up() {
    let mut run = ResolveRun::new("root".to_string(), "1.0.0".to_string());
    let orphan = PendingEntry {
        name: "lib".to_string(),
        requirement: "1".to_string(),
        parent: None,
        parent_platform: None,
    };
    let error = run.expand(&orphan, &vec![release("1", "1.1", &[])]).expect_err("no platform");
    assert!(matches!(error.kind, Failure::MissingParentPlatform));
    assert_eq!(
        error.message(),
        "Dependência 'lib' não recebeu versão do Factorio do pai (requisito '1')"
    );
    assert!(run.chosen.is_empty());
    let adopted = PendingEntry { parent: Some("root".to_string()), ..orphan };
    let error = run.expand(&adopted, &vec![release("1", "1.1", &[])]).expect_err("no platform");
    assert_eq!(
        error.message(),
        "Dependência 'lib' não recebeu versão do Factorio do pai (requisito '1', pai 'root')"
    );
    assert_eq!(error.parent_mod, Some("root".to_string()));
}

#[test]
fn an_error_leaves_the_run_as_it_was() {
    let mut run = ResolveRun::new("root".to_string(), "1.0.0".to_string());
    let entry = run.next_pending().expect("the root is pending");
    let error = run.expand(&entry, &vec![release("2.0.0", "1.1", &["lib"])]).expect_err("no 1.0.0");
    assert_eq!(error.message(), "Versão 1.0.0 não encontrada para root");
    assert!(run.chosen.is_empty());
    assert!(run.pending.is_empty());
    assert_eq!(run.required, vec![pair("root", "1.0.0")]);
}

#[test]
fn progress_counts_what_is_done_and_what_is_left() {
    let mut run = ResolveRun::new("root".to_string(), "1.0.0".to_string());
    let entry = run.next_pending().expect("the root is pending");
    assert_eq!(entry.name, "root");
    assert_eq!(entry.requirement, "1.0.0");
    assert_eq!(entry.parent, None);
    assert_eq!(entry.parent_platform, None);
    let progress = run
        .expand(&entry, &vec![release("1.0.0", "1.1", &["a", "b >= 2", "a >= 3", "? c"])])
        .expect("expanded");
    assert_eq!(progress.name, "root");
    assert_eq!(progress.requirement, "1.0.0");
    assert_eq!(progress.processed, 1);
    assert_eq!(progress.discovered, 3);
    assert_eq!(progress.pending, 3);
    assert!(run.is_processed("root"));
    assert!(!run.is_processed("a"));
    let next = run.next_pending().expect("a is pending");
    assert_eq!(next.name, "a");
    assert_eq!(next.requirement, "0.0.1");
    assert_eq!(next.parent, Some("root".to_string()));
    assert_eq!(next.parent_platform, Some("1.1".to_string()));
    let again = run.expand(&entry, &vec![release("1.0.0", "9.9", &["z"])]).expect("discarded");
    assert_eq!(again.processed, 1);
    assert_eq!(again.pending, 2);
    assert_eq!(run.plan(), vec![pair("root", "1.0.0")]);
}

#[test]
fn the_plan_is_handed_to_the_queue() {
    let mut queue = DownloadQueueManager::new();
    let request = ResolveRequest {
        root_mod: "example-mod".to_string(),
        version: "1.0.0".to_string(),
        profile_name: "profileX".to_string(),
    };
    let plan = vec![pair("example-mod", "1.0.0"), pair("lib-a", "0.5.2")];
    let results = enqueue_plan(&mut queue, &plan, &request.profile_name);
    assert_eq!(results.len(), 2);
    assert_eq!(queue.queue.len(), 2);
    assert_eq!(queue.queue[0].id, results[0].0);
    assert_eq!(queue.queue[0].mod_name, request.root_mod);
    assert_eq!(queue.queue[0].version, request.version);
    assert_eq!(queue.queue[0].profile_name, "profileX");
    assert_eq!(queue.queue[0].status, DownloadStatus::Downloading);
    assert_eq!(queue.queue[1].id, results[1].0);
    assert_eq!(queue.queue[1].mod_name, "lib-a");
    assert_eq!(queue.queue[1].version, "0.5.2");
    assert_eq!(queue.queue[1].status, DownloadStatus::Queued);
    assert_eq!(results[0].1.as_ref().map(|i| i.mod_name.clone()), Some("example-mod".to_string()));
    assert!(results[1].1.is_none());
    let newer = vec![pair("lib-a", "0.6.0")];
    enqueue_plan(&mut queue, &newer, "profileX");
    let names: Vec<(String, String)> =
        queue.queue.iter().map(|i| (i.mod_name.clone(), i.version.clone())).collect();
    assert_eq!(names, vec![pair("example-mod", "1.0.0"), pair("lib-a", "0.6.0")]);
    assert!(enqueue_plan(&mut queue, &Vec::new(), "profileX").is_empty());
}

#[test]
fn every_error_text_names_package_requirement_and_parent() {
    let kinds = [
        Failure::Fetch("timeout".to_string()),
        Failure::VersionNotFound,
        Failure::NoCompatibleRelease("1.1".to_string()),
        Failure::MissingParentPlatform,
    ];
    for kind in kinds {
        let with_parent = ResolveError {
            kind,
            mod_name: "lib-a".to_string(),
            requirement: "0.5.0".to_string(),
            parent_mod: Some("root-mod".to_string()),
        };
        let text = with_parent.message();
        assert!(text.contains("lib-a"), "{text}");
        assert!(text.contains("0.5.0"), "{text}");
        assert!(text.contains("root-mod"), "{text}");
        let other = ResolveError { requirement: "0.6.0".to_string(), ..with_parent };
        assert_ne!(other.message(), text);
        let alone = ResolveError { parent_mod: None, ..other };
        assert!(alone.message().contains("lib-a"));
        assert!(alone.message().contains("0.6.0"));
        assert!(!alone.message().contains("pai '"));
    }
}

#[test]
fn a_dependency_without_release_for_the_platform_names_what_was_asked() {
    let mut catalog = Catalog::new(vec![
        ("root-mod", vec![release("1.0.0", "1.1", &["lib-a >= 0.5.0"])]),
        ("lib-a", vec![release("0.5.2", "2.0", &[])]),
    ]);
    let error = catalog.resolve("root-mod", "1.0.0").expect_err("no release for 1.1");
    assert_eq!(error.stage().name(), "select_release");
    assert_eq!(error.mod_name, "lib-a");
    assert_eq!(error.requirement, "0.5.0");
    assert_eq!(error.parent_mod, Some("root-mod".to_string()));
    assert_eq!(
        error.message(),
        "Nenhuma versão encontrada para lib-a compatível com Factorio 1.1 (requisito '0.5.0', pai 'root-mod')"
    );
}

fn failure_of(kind: usize) -> Failure {
    match kind {
        0 => Failure::Fetch("Erro HTTP: 500".to_string()),
        1 => Failure::VersionNotFound,
        2 => Failure::NoCompatibleRelease("1.1".to_string()),
        _ => Failure::MissingParentPlatform,
    }
}

#[test]
fn errors_that_differ_in_the_requirement_differ_in_their_text() {
    for kind in 0..4 {
        for parent in [None, Some("root-mod".to_string())] {
            let first = ResolveError {
                kind: failure_of(kind),
                mod_name: "lib-a".to_string(),
                requirement: "0.5.0".to_string(),
                parent_mod: parent.clone(),
            };
            let second = ResolveError {
                kind: failure_of(kind),
                mod_name: "lib-a".to_string(),
                requirement: "0.6.0".to_string(),
                parent_mod: parent.clone(),
            };
            assert_ne!(first.message(), second.message());
            assert!(first.message().contains("0.5.0"));
            assert!(first.message().contains("lib-a"));
        }
    }
}
