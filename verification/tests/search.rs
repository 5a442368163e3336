use mod_manager::profile::is_reparse_point;
use mod_manager::search::{
    extract_keywords, index_keys, matches_query, normalize_string, page_bounds,
};

#[test]
fn normal_forms() {
    assert_eq!(normalize_string("Hello, World!"), "hello world");
    assert_eq!(normalize_string("  Krastorio   2  "), "krastorio 2");
    assert_eq!(normalize_string("space-exploration"), "spaceexploration");
    assert_eq!(normalize_string("A\tB\nC"), "a b c");
    assert_eq!(normalize_string(""), "");
    assert_eq!(normalize_string("!!!"), "");
    assert_eq!(normalize_string(" - "), "");
    assert_eq!(normalize_string("Ünïcödé Mod"), "ünïcödé mod");
    assert_eq!(normalize_string("Bob's_Mods (v2)"), "bobsmods v2");
    assert_eq!(normalize_string("a\u{a0}b"), "a b");
}

#[test]
fn normal_forms_agree_with_the_standard_library() {
    fn reference(s: &str) -> String {
        s.to_lowercase()
            .chars()
            .filter(|c| c.is_alphanumeric() || c.is_whitespace())
            .collect::<String>()
            .split_whitespace()
            .collect::<Vec<&str>>()
            .join(" ")
    }
    let samples = [
        "", " ", "a", " a ", "a  b", "A-B c", "ΑΣ ΟΣ", "İstanbul", "x\u{2003}y", "１２３ ４", "ǅ",
        "tab\tand\nnewline", "--", "a - b", "中文 模组", "ß ẞ", "e\u{301}", "  lead", "trail  ",
    ];
    for s in samples {
        assert_eq!(normalize_string(s), reference(s), "{s:?}");
    }
}

#[test]
fn keywords_are_the_longer_words() {
    assert_eq!(extract_keywords("The Space Exploration of AI"), vec!["the", "space", "exploration"]);
    assert_eq!(extract_keywords("a bc def"), vec!["def"]);
    assert_eq!(extract_keywords(""), Vec::<String>::new());
    assert_eq!(extract_keywords("éé é"), vec!["éé"]);
    assert_eq!(extract_keywords("中 ab"), vec!["中"]);
}

#[test]
fn keywords_agree_with_the_standard_library() {
    fn reference(text: &str) -> Vec<String> {
        let normalized = text
            .to_lowercase()
            .chars()
            .filter(|c| c.is_alphanumeric() || c.is_whitespace())
            .collect::<String>()
            .split_whitespace()
            .collect::<Vec<&str>>()
            .join(" ");
        normalized.split_whitespace().filter(|w| w.len() > 2).map(|w| w.to_string()).collect()
    }
    let samples = ["", "a bb ccc dddd", "Ab-Cd ef", "é éé 中 中中", "  x  ", "one\u{a0}two"];
    for s in samples {
        assert_eq!(extract_keywords(s), reference(s), "{s:?}");
    }
}

#[test]
fn reparse_points_are_told_by_one_bit() {
    assert!(is_reparse_point(0x0400));
    assert!(is_reparse_point(0x0410));
    assert!(is_reparse_point(u32::MAX));
    assert!(!is_reparse_point(0));
    assert!(!is_reparse_point(0x0010));
    assert!(!is_reparse_point(0x0800));
    assert!(!is_reparse_point(!0x0400));
}

#[test]
fn a_query_is_found_in_a_name() {
    assert!(matches_query("Space Exploration", "space"));
    assert!(matches_query("Space Exploration", "space exploration"));
    assert!(matches_query("Space Exploration", "spaceexp"));
    assert!(matches_query("SpaceExploration", "space exploration"));
    assert!(matches_query("Space Exploration Extended", "extended space"));
    assert!(!matches_query("Space Exploration", "extended space"));
    assert!(!matches_query("Space Exploration", "krastorio"));
    assert!(matches_query("Space Exploration", ""));
    assert!(matches_query("", ""));
    assert!(!matches_query("", "a"));
    assert!(matches_query("bobs-mods", "bobsmods"));
}

#[test]
fn matching_agrees_with_the_standard_library() {
    fn reference(name: &str, normalized_query: &str) -> bool {
        let mod_name = normalize_string(name);
        if mod_name.contains(normalized_query) {
            return true;
        }
        if mod_name.replace(' ', "").contains(&normalized_query.replace(' ', "")) {
            return true;
        }
        let words: Vec<&str> = normalized_query.split_whitespace().collect();
        words.len() > 1 && words.iter().all(|w| mod_name.contains(*w))
    }
    let names = ["", "a", "ab cd", "Ab-Cd Ef", "x y z", "alpha beta", "betaalpha", "é ü"];
    let queries = ["", "a", "ab", "abcd", "cd ab", "ef ab", "b c", "alpha  beta", "beta alpha", "ü é", " "];
    for name in names {
        for query in queries {
            assert_eq!(matches_query(name, query), reference(name, query), "{name:?} {query:?}");
        }
    }
}

#[test]
fn pages_count_from_one() {
    assert_eq!(page_bounds(1, 20, 45), Some((0, 20)));
    assert_eq!(page_bounds(2, 20, 45), Some((20, 40)));
    assert_eq!(page_bounds(3, 20, 45), Some((40, 45)));
    assert_eq!(page_bounds(4, 20, 45), None);
    assert_eq!(page_bounds(1, 20, 0), None);
    assert_eq!(page_bounds(0, 20, 45), None);
    assert_eq!(page_bounds(1, 0, 45), Some((0, 0)));
    assert_eq!(page_bounds(2, 0, 45), Some((0, 0)));
    assert_eq!(page_bounds(1, usize::MAX, 45), Some((0, 45)));
    assert_eq!(page_bounds(3, usize::MAX, 45), None);
    assert_eq!(page_bounds(usize::MAX, 2, 45), None);
    assert_eq!(page_bounds(1, 45, 45), Some((0, 45)));
    assert_eq!(page_bounds(2, 45, 45), None);
}

#[test]
fn the_keys_of_a_package_in_the_index() {
    let keys = index_keys("Space-Exploration", "Space Exploration", "Earendel", "Overhaul", "An overhaul to go to space");
    assert_eq!(keys.name, "spaceexploration");
    assert_eq!(keys.title_words, vec!["space", "exploration"]);
    assert_eq!(keys.owner, "earendel");
    assert_eq!(keys.category, "overhaul");
    assert_eq!(keys.keywords, vec!["space", "exploration", "overhaul", "space"]);
    let bare = index_keys("", "", "", "", "");
    assert_eq!(bare.name, "");
    assert!(bare.title_words.is_empty());
    assert!(bare.keywords.is_empty());
    let joined = index_keys("x", "ab", "o", "c", "cd");
    assert!(joined.keywords.is_empty());
    let glued = index_keys("x", "abc", "o", "c", "");
    assert_eq!(glued.keywords, vec!["abc"]);
}
