use mod_manager::catalog::{
    encode_spaces, factorio_version_for, is_cache_fresh, mod_full_url, mod_info_url, pick_thumbnail,
    ListingQuery, ModSummary, SearchFilters, DEFAULT_CACHE_EXPIRY_HOURS, DEFAULT_PAGE_SIZE,
    DEFAULT_THUMBNAIL_LIMIT,
};
use mod_manager::dependency_resolver::Release;

#[test]
fn the_defaults() {
    assert_eq!(DEFAULT_CACHE_EXPIRY_HOURS, 24);
    assert_eq!(DEFAULT_PAGE_SIZE, 20);
    assert_eq!(DEFAULT_THUMBNAIL_LIMIT, 50);
}

#[test]
fn addresses_of_catalog_entries() {
    assert_eq!(mod_info_url("some-mod"), "https://mods.factorio.com/api/mods/some-mod");
    assert_eq!(mod_full_url("some-mod"), "https://mods.factorio.com/api/mods/some-mod/full");
    assert_eq!(
        mod_full_url("Krastorio 2 Extended"),
        "https://mods.factorio.com/api/mods/Krastorio%202%20Extended/full"
    );
    assert_eq!(mod_info_url("  "), "https://mods.factorio.com/api/mods/%20%20");
    for name in ["", " ", "a b", " a", "a ", "a\tb", "a%20b", "é ü"] {
        assert_eq!(
            mod_info_url(name),
            format!("https://mods.factorio.com/api/mods/{}", name.replace(' ', "%20"))
        );
    }
}

#[test]
fn the_thumbnail_of_the_first_image_comes_first() {
    assert_eq!(
        pick_thumbnail(Some("https://img/1.thumb.png"), Some("/assets/x.png")),
        Some("https://img/1.thumb.png".to_string())
    );
    assert_eq!(pick_thumbnail(Some(""), None), Some(String::new()));
}

#[test]
fn a_thumbnail_under_assets_gets_the_asset_host() {
    assert_eq!(
        pick_thumbnail(None, Some("/assets/abc.thumb.png")),
        Some("https://assets-mod.factorio.com/assets/abc.thumb.png".to_string())
    );
    assert_eq!(pick_thumbnail(None, Some("/other/abc.png")), None);
    assert_eq!(pick_thumbnail(None, Some("assets/abc.png")), None);
    assert_eq!(pick_thumbnail(None, Some("/assets")), None);
    assert_eq!(pick_thumbnail(None, None), None);
}

#[test]
fn a_cache_is_fresh_for_less_than_the_limit_in_full_hours() {
    assert!(is_cache_fresh(0, 24));
    assert!(is_cache_fresh(24 * 3600 - 1, 24));
    assert!(!is_cache_fresh(24 * 3600, 24));
    assert!(!is_cache_fresh(25 * 3600, 24));
    assert!(!is_cache_fresh(0, 0));
    assert!(is_cache_fresh(3599, 1));
    assert!(!is_cache_fresh(3600, 1));
    assert!(is_cache_fresh(u64::MAX, -1));
    assert!(is_cache_fresh(u64::MAX, i64::MAX));
    for (age, limit) in [(0u64, -5i64), (7200, 2), (7199, 2), (u64::MAX, 1), (1, i64::MIN)] {
        assert_eq!(is_cache_fresh(age, limit), age / 3600 < limit as u64);
    }
}

fn release(version: &str, platform: &str) -> Release {
    Release {
        version: version.to_string(),
        released_at: String::new(),
        factorio_version: platform.to_string(),
        dependencies: None,
    }
}

#[test]
fn the_platform_version_of_a_release() {
    let releases = vec![release("1.0.0", "1.1"), release("2.0.0", "2.0"), release("1.0.0", "0.17")];
    assert_eq!(factorio_version_for(&releases, "2.0.0"), Some("2.0".to_string()));
    assert_eq!(factorio_version_for(&releases, "1.0.0"), Some("1.1".to_string()));
    assert_eq!(factorio_version_for(&releases, "1.0"), None);
    assert_eq!(factorio_version_for(&Vec::new(), "1.0.0"), None);
}

fn summary(category: &str, owner: &str, downloads: u64, platform: Option<&str>) -> ModSummary {
    ModSummary {
        category: category.to_string(),
        owner: owner.to_string(),
        downloads_count: downloads,
        factorio_version: platform.map(|p| p.to_string()),
    }
}

fn no_filters() -> SearchFilters {
    SearchFilters {
        category: None,
        factorio_version: None,
        min_downloads: None,
        max_downloads: None,
        owner: None,
    }
}

#[test]
fn without_filters_everything_passes() {
    assert!(no_filters().passes(&summary("content", "someone", 3, None)));
}

#[test]
fn each_filter_narrows() {
    let package = summary("Content", "Some-One", 500, Some("1.1"));
    let category = SearchFilters { category: Some("content".to_string()), ..no_filters() };
    assert!(category.passes(&package));
    let other = SearchFilters { category: Some("tweaks".to_string()), ..no_filters() };
    assert!(!other.passes(&package));
    let owner = SearchFilters { owner: Some("someone".to_string()), ..no_filters() };
    assert!(owner.passes(&package));
    let stranger = SearchFilters { owner: Some("some one".to_string()), ..no_filters() };
    assert!(!stranger.passes(&package));
    let platform = SearchFilters { factorio_version: Some("1.1".to_string()), ..no_filters() };
    assert!(platform.passes(&package));
    assert!(!platform.passes(&summary("Content", "Some-One", 500, Some("2.0"))));
    assert!(!platform.passes(&summary("Content", "Some-One", 500, None)));
    let least = SearchFilters { min_downloads: Some(500), ..no_filters() };
    assert!(least.passes(&package));
    let more = SearchFilters { min_downloads: Some(501), ..no_filters() };
    assert!(!more.passes(&package));
    let most = SearchFilters { max_downloads: Some(500), ..no_filters() };
    assert!(most.passes(&package));
    let fewer = SearchFilters { max_downloads: Some(499), ..no_filters() };
    assert!(!fewer.passes(&package));
    let all = SearchFilters {
        category: Some("CONTENT".to_string()),
        factorio_version: Some("1.1".to_string()),
        min_downloads: Some(1),
        max_downloads: Some(1000),
        owner: Some("SomeOne".to_string()),
    };
    assert!(all.passes(&package));
}

fn listing() -> ListingQuery {
    ListingQuery { page: None, page_size: None, hide_deprecated: None, version: None, sort: None, sort_order: None }
}

#[test]
fn the_address_of_a_listing() {
    assert_eq!(listing().url(), "https://mods.factorio.com/api/mods");
    let paged = ListingQuery { page: Some(3), page_size: Some(25), ..listing() };
    assert_eq!(paged.url(), "https://mods.factorio.com/api/mods?page=3&page_size=25");
    let sorted = ListingQuery {
        sort: Some("name".to_string()),
        sort_order: Some("desc".to_string()),
        ..listing()
    };
    assert_eq!(sorted.url(), "https://mods.factorio.com/api/mods?sort=name&sort_order=desc");
    let full = ListingQuery {
        page: Some(0),
        page_size: Some(u32::MAX),
        hide_deprecated: Some(true),
        version: Some("1.1".to_string()),
        sort: Some("updated_at".to_string()),
        sort_order: Some("asc".to_string()),
    };
    assert_eq!(
        full.url(),
        "https://mods.factorio.com/api/mods?page=0&page_size=4294967295&hide_deprecated=true&version=1.1&sort=updated_at&sort_order=asc"
    );
    let hidden = ListingQuery { hide_deprecated: Some(false), ..listing() };
    assert_eq!(hidden.url(), "https://mods.factorio.com/api/mods?hide_deprecated=false");
    let last = ListingQuery { sort_order: Some("".to_string()), ..listing() };
    assert_eq!(last.url(), "https://mods.factorio.com/api/mods?sort_order=");
}

#[test]
fn spaces_in_addresses() {
    assert_eq!(encode_spaces("Krastorio 2"), "Krastorio%202");
    assert_eq!(encode_spaces(""), "");
    assert_eq!(encode_spaces("   "), "%20%20%20");
    assert_eq!(encode_spaces("a\tb"), "a\tb");
}
