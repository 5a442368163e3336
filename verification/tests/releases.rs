use mod_manager::dependency_resolver::Release;
use mod_manager::releases::newest_first;

fn release(version: &str, released_at: &str) -> Release {
    Release {
        version: version.to_string(),
        released_at: released_at.to_string(),
        factorio_version: "1.1".to_string(),
        dependencies: None,
    }
}

#[test]
fn the_newest_release_comes_first() {
    let releases = vec![
        release("1.0.0", "2023-01-05T10:00:00.000000Z"),
        release("1.2.0", "2024-03-01T08:30:00.000000Z"),
        release("1.1.0", "2023-06-20T23:59:59.000000Z"),
    ];
    assert_eq!(newest_first(&releases), vec![1, 2, 0]);
}

#[test]
fn releases_of_the_same_time_keep_their_order() {
    let releases = vec![
        release("a", "2024-01-01"),
        release("b", "2024-01-02"),
        release("c", "2024-01-01"),
        release("d", "2024-01-02"),
        release("e", "2023-12-31"),
    ];
    assert_eq!(newest_first(&releases), vec![1, 3, 0, 2, 4]);
}

#[test]
fn few_releases() {
    assert_eq!(newest_first(&Vec::new()), Vec::<usize>::new());
    assert_eq!(newest_first(&vec![release("a", "")]), vec![0]);
    assert_eq!(newest_first(&vec![release("a", ""), release("b", "")]), vec![0, 1]);
    assert_eq!(newest_first(&vec![release("a", ""), release("b", "x")]), vec![1, 0]);
    assert_eq!(newest_first(&vec![release("a", "x"), release("b", "xy")]), vec![1, 0]);
}

#[test]
fn the_order_agrees_with_a_stable_sort() {
    let mut seed: u64 = 0x1234_5678_9abc_def1;
    let mut next = move |n: u64| {
        seed ^= seed << 13;
        seed ^= seed >> 7;
        seed ^= seed << 17;
        seed % n
    };
    let alphabet = ["", "0", "1", "2", "é", "z", "A", "10", "02", "~", "\u{10ffff}", "é1"];
    for round in 0..200 {
        let n = next(25) as usize;
        let releases: Vec<Release> = (0..n)
            .map(|i| {
                let date = format!(
                    "{}{}",
                    alphabet[next(alphabet.len() as u64) as usize],
                    alphabet[next(alphabet.len() as u64) as usize]
                );
                release(&format!("{i}"), &date)
            })
            .collect();
        let mut expected: Vec<usize> = (0..n).collect();
        expected.sort_by(|&a, &b| releases[b].released_at.cmp(&releases[a].released_at));
        assert_eq!(newest_first(&releases), expected, "round {round}");
    }
}
