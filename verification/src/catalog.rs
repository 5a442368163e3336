//! The package catalog: the addresses under which it answers, and what is
//! read from its answers.

use crate::archive::{decimal_digits, push_decimal};
use crate::dependency_resolver::{releases_view, text_view, Release};
use crate::resolve_model::{exact_release_from, ReleaseView};
use crate::search::{normal_form, normalize_string};
use crate::text::{chars_of, same_text, starts_with};
use vstd::prelude::*;
use vstd::string::StringExecFns;

verus! {

/// The number of hours after which cached data counts as stale, unless
/// another number is configured.
pub const DEFAULT_CACHE_EXPIRY_HOURS: u32 = 24;

/// The number of entries on a page of search results, unless another number
/// is asked for.
pub const DEFAULT_PAGE_SIZE: usize = 20;

/// The number of thumbnails that one update fetches, unless another number
/// is asked for.
pub const DEFAULT_THUMBNAIL_LIMIT: usize = 50;

/// `s` with `%20` in the place of every space.
pub open spec fn spaces_encoded(s: Seq<char>) -> Seq<char>
    decreases s.len(),
{
    if s.len() == 0 {
        s
    } else if s.last() == ' ' {
        spaces_encoded(s.drop_last()) + "%20"@
    } else {
        spaces_encoded(s.drop_last()).push(s.last())
    }
}

/// The address of the catalog's short entry for `mod_name`.
pub open spec fn mod_info_url_text(mod_name: Seq<char>) -> Seq<char> {
    "https://mods.factorio.com/api/mods/"@ + spaces_encoded(mod_name)
}

/// The address of the catalog's full entry for `mod_name`.
pub open spec fn mod_full_url_text(mod_name: Seq<char>) -> Seq<char> {
    mod_info_url_text(mod_name) + "/full"@
}

/// The picture of a package: the thumbnail of its first image, where it has
/// one; else the address of its own thumbnail, where that is a path under
/// `/assets/`.
pub open spec fn thumbnail_of(first_image: Option<Seq<char>>, thumbnail: Option<Seq<char>>) -> Option<
    Seq<char>,
> {
    match first_image {
        Some(image) => Some(image),
        None => match thumbnail {
            Some(path) => if "/assets/"@.is_prefix_of(path) {
                Some("https://assets-mod.factorio.com"@ + path)
            } else {
                None
            },
            None => None,
        },
    }
}

/// Whether a cache that was written `age_secs` seconds ago is fresh: fewer
/// full hours have passed than `max_age_hours`. A negative limit never runs
/// out.
pub open spec fn cache_is_fresh(age_secs: u64, max_age_hours: i64) -> bool {
    max_age_hours < 0 || age_secs / 3600 < max_age_hours
}

/// The platform version of the release of `version` among `releases`: that
/// of the first release with this version.
pub open spec fn platform_of(releases: Seq<ReleaseView>, version: Seq<char>) -> Option<Seq<char>> {
    match exact_release_from(releases, version, 0) {
        Some(k) => Some(releases[k].factorio_version),
        None => None,
    }
}

/// What a search is narrowed by, as far as it goes by texts and counts.
#[derive(Debug)]
pub struct SearchFilters {
    pub category: Option<String>,
    pub factorio_version: Option<String>,
    pub min_downloads: Option<u64>,
    pub max_downloads: Option<u64>,
    pub owner: Option<String>,
}

/// The mathematical view of the filters of a search.
pub struct FiltersView {
    pub category: Option<Seq<char>>,
    pub factorio_version: Option<Seq<char>>,
    pub min_downloads: Option<u64>,
    pub max_downloads: Option<u64>,
    pub owner: Option<Seq<char>>,
}

impl View for SearchFilters {
    type V = FiltersView;

    open spec fn view(&self) -> FiltersView {
        FiltersView {
            category: text_view(self.category),
            factorio_version: text_view(self.factorio_version),
            min_downloads: self.min_downloads,
            max_downloads: self.max_downloads,
            owner: text_view(self.owner),
        }
    }
}

/// What the filters look at in a package.
#[derive(Debug)]
pub struct ModSummary {
    pub category: String,
    pub owner: String,
    pub downloads_count: u64,
    /// The platform version of the latest release, where there is one.
    pub factorio_version: Option<String>,
}

/// The mathematical view of what the filters look at.
pub struct SummaryView {
    pub category: Seq<char>,
    pub owner: Seq<char>,
    pub downloads_count: u64,
    pub factorio_version: Option<Seq<char>>,
}

impl View for ModSummary {
    type V = SummaryView;

    open spec fn view(&self) -> SummaryView {
        SummaryView {
            category: self.category@,
            owner: self.owner@,
            downloads_count: self.downloads_count,
            factorio_version: text_view(self.factorio_version),
        }
    }
}

impl FiltersView {
    /// Whether a package passes every filter that is set. Category and owner
    /// compare by their normal forms. A filter for a platform version lets
    /// only packages pass whose latest release is made for that version.
    pub open spec fn passes(self, summary: SummaryView) -> bool {
        &&& match self.category {
            Some(category) => normal_form(summary.category) == normal_form(category),
            None => true,
        }
        &&& match self.factorio_version {
            Some(version) => summary.factorio_version == Some(version),
            None => true,
        }
        &&& match self.min_downloads {
            Some(least) => summary.downloads_count >= least,
            None => true,
        }
        &&& match self.max_downloads {
            Some(most) => summary.downloads_count <= most,
            None => true,
        }
        &&& match self.owner {
            Some(owner) => normal_form(summary.owner) == normal_form(owner),
            None => true,
        }
    }
}

/// One parameter of a query, as `name=value`.
pub open spec fn parameter(name: Seq<char>, value: Seq<char>) -> Seq<char> {
    name + "="@ + value
}

/// The text of a truth value.
pub open spec fn bool_text(b: bool) -> Seq<char> {
    if b {
        "true"@
    } else {
        "false"@
    }
}

/// The parameters, each behind the one before it with `&` between them.
pub open spec fn joined_parameters(parameters: Seq<Seq<char>>) -> Seq<char>
    decreases parameters.len(),
{
    if parameters.len() == 0 {
        Seq::empty()
    } else if parameters.len() == 1 {
        parameters.last()
    } else {
        joined_parameters(parameters.drop_last()).push('&') + parameters.last()
    }
}

/// What a listing of the catalog is asked with.
#[derive(Debug)]
pub struct ListingQuery {
    pub page: Option<u32>,
    pub page_size: Option<u32>,
    pub hide_deprecated: Option<bool>,
    pub version: Option<String>,
    pub sort: Option<String>,
    pub sort_order: Option<String>,
}

/// The mathematical view of a listing query.
pub struct ListingQueryView {
    pub page: Option<u32>,
    pub page_size: Option<u32>,
    pub hide_deprecated: Option<bool>,
    pub version: Option<Seq<char>>,
    pub sort: Option<Seq<char>>,
    pub sort_order: Option<Seq<char>>,
}

impl View for ListingQuery {
    type V = ListingQueryView;

    open spec fn view(&self) -> ListingQueryView {
        ListingQueryView {
            page: self.page,
            page_size: self.page_size,
            hide_deprecated: self.hide_deprecated,
            version: text_view(self.version),
            sort: text_view(self.sort),
            sort_order: text_view(self.sort_order),
        }
    }
}

/// `parameters` with `name=value` behind them, where there is a value.
pub open spec fn with_parameter(
    parameters: Seq<Seq<char>>,
    name: Seq<char>,
    value: Option<Seq<char>>,
) -> Seq<Seq<char>> {
    match value {
        Some(value) => parameters.push(parameter(name, value)),
        None => parameters,
    }
}

impl ListingQueryView {
    /// The parameters that are set, in their fixed order.
    pub open spec fn parameters(self) -> Seq<Seq<char>> {
        let with_page = with_parameter(
            Seq::empty(),
            "page"@,
            match self.page {
                Some(n) => Some(decimal_digits(n as nat)),
                None => None,
            },
        );
        let with_size = with_parameter(
            with_page,
            "page_size"@,
            match self.page_size {
                Some(n) => Some(decimal_digits(n as nat)),
                None => None,
            },
        );
        let with_hiding = with_parameter(
            with_size,
            "hide_deprecated"@,
            match self.hide_deprecated {
                Some(b) => Some(bool_text(b)),
                None => None,
            },
        );
        let with_version = with_parameter(with_hiding, "version"@, self.version);
        let with_sort = with_parameter(with_version, "sort"@, self.sort);
        with_parameter(with_sort, "sort_order"@, self.sort_order)
    }

    /// The address of the listing.
    pub open spec fn url(self) -> Seq<char> {
        if self.parameters().len() == 0 {
            "https://mods.factorio.com/api/mods"@
        } else {
            "https://mods.factorio.com/api/mods"@.push('?') + joined_parameters(self.parameters())
        }
    }
}

/// `text` with `%20` in the place of every space, as it stands in an
/// address.
pub fn encode_spaces(text: &str) -> (encoded: String)
    ensures
        encoded@ == spaces_encoded(text@),
{
    let v = chars_of(text);
    let mut encoded = String::new();
    let mut i: usize = 0;
    assert(v@.take(0) == Seq::<char>::empty());
    while i < v.len()
        invariant
            i <= v.len(),
            encoded@ == spaces_encoded(v@.take(i as int)),
        decreases v.len() - i,
    {
        proof {
            assert(v@.take(i + 1).drop_last() == v@.take(i as int));
            assert(v@.take(i + 1).last() == v@[i as int]);
        }
        if v[i] == ' ' {
            encoded.push_str("%20");
        } else {
            encoded.push(v[i]);
        }
        i += 1;
    }
    assert(v@.take(i as int) == v@);
    encoded
}

/// The address of the catalog's short entry for `mod_name`.
pub fn mod_info_url(mod_name: &str) -> (url: String)
    ensures
        url@ == mod_info_url_text(mod_name@),
{
    let mut url = String::from_str("https://mods.factorio.com/api/mods/");
    url.push_str(encode_spaces(mod_name).as_str());
    url
}

/// The address of the catalog's full entry for `mod_name`.
pub fn mod_full_url(mod_name: &str) -> (url: String)
    ensures
        url@ == mod_full_url_text(mod_name@),
{
    let mut url = mod_info_url(mod_name);
    url.push_str("/full");
    url
}

/// The picture of a package, from the thumbnail of its first image, if it
/// has images, and its own thumbnail, if it has one.
pub fn pick_thumbnail(first_image: Option<&str>, thumbnail: Option<&str>) -> (picture: Option<
    String,
>)
    ensures
        text_view(picture) == thumbnail_of(
            crate::archive::header_view(first_image),
            crate::archive::header_view(thumbnail),
        ),
{
    match first_image {
        Some(image) => Some(String::from_str(image)),
        None => match thumbnail {
            Some(path) => {
                let v = chars_of(path);
                assert(v@.subrange(0, v@.len() as int) == v@);
                if starts_with(&v, 0, v.len(), &chars_of("/assets/")) {
                    let mut url = String::from_str("https://assets-mod.factorio.com");
                    url.push_str(path);
                    Some(url)
                } else {
                    None
                }
            },
            None => None,
        },
    }
}

/// Whether a cache that was written `age_secs` seconds ago is still fresh
/// under a limit of `max_age_hours` hours.
pub fn is_cache_fresh(age_secs: u64, max_age_hours: i64) -> (fresh: bool)
    ensures
        fresh == cache_is_fresh(age_secs, max_age_hours),
{
    if max_age_hours < 0 {
        true
    } else {
        age_secs / 3600 < max_age_hours as u64
    }
}

/// The platform version of the release of `version` among `releases`.
pub fn factorio_version_for(releases: &Vec<Release>, version: &str) -> (platform: Option<String>)
    ensures
        text_view(platform) == platform_of(releases_view(releases@), version@),
{
    let mut i: usize = 0;
    while i < releases.len()
        invariant
            i <= releases.len(),
            exact_release_from(releases_view(releases@), version@, 0) == exact_release_from(
                releases_view(releases@),
                version@,
                i as int,
            ),
        decreases releases.len() - i,
    {
        if same_text(releases[i].version.as_str(), version) {
            assert(releases_view(releases@)[i as int].version == version@);
            return Some(releases[i].factorio_version.clone());
        }
        assert(releases_view(releases@)[i as int].version != version@);
        i += 1;
    }
    None
}

fn same_normal_form(a: &str, b: &str) -> (same: bool)
    ensures
        same == (normal_form(a@) == normal_form(b@)),
{
    same_text(normalize_string(a).as_str(), normalize_string(b).as_str())
}

impl SearchFilters {
    /// Whether a package passes every filter that is set.
    pub fn passes(&self, summary: &ModSummary) -> (passes: bool)
        ensures
            passes == self@.passes(summary@),
    {
        let category = match &self.category {
            Some(category) => same_normal_form(summary.category.as_str(), category.as_str()),
            None => true,
        };
        let version = match &self.factorio_version {
            Some(version) => match &summary.factorio_version {
                Some(latest) => same_text(latest.as_str(), version.as_str()),
                None => false,
            },
            None => true,
        };
        let least = match self.min_downloads {
            Some(least) => summary.downloads_count >= least,
            None => true,
        };
        let most = match self.max_downloads {
            Some(most) => summary.downloads_count <= most,
            None => true,
        };
        let owner = match &self.owner {
            Some(owner) => same_normal_form(summary.owner.as_str(), owner.as_str()),
            None => true,
        };
        category && version && least && most && owner
    }
}

fn push_parameter(url: &mut String, count: &mut usize, name: &str, value: &str)
    requires
        *old(count) < 6,
    ensures
        *final(count) == *old(count) + 1,
        final(url)@ == old(url)@.push(
            if *old(count) == 0 {
                '?'
            } else {
                '&'
            },
        ) + parameter(name@, value@),
{
    let ghost before = url@;
    if *count == 0 {
        url.push('?');
    } else {
        url.push('&');
    }
    url.push_str(name);
    url.push_str("=");
    url.push_str(value);
    *count = *count + 1;
    assert(url@ =~= before.push(
        if *old(count) == 0 {
            '?'
        } else {
            '&'
        },
    ) + (name@ + "="@ + value@));
}

proof fn lemma_joined_push(parameters: Seq<Seq<char>>, next: Seq<char>, base: Seq<char>)
    ensures
        parameters.len() == 0 ==> base.push('?') + joined_parameters(parameters.push(next))
            == base.push('?') + next,
        parameters.len() > 0 ==> base.push('?') + joined_parameters(parameters.push(next)) == (
        base.push('?') + joined_parameters(parameters)).push('&') + next,
{
    let longer = parameters.push(next);
    assert(longer.drop_last() == parameters);
    assert(longer.last() == next);
    if parameters.len() > 0 {
        assert(base.push('?') + (joined_parameters(parameters).push('&') + next) =~= (base.push(
            '?',
        ) + joined_parameters(parameters)).push('&') + next);
    }
}

fn decimal_text(n: u32) -> (text: String)
    ensures
        text@ == decimal_digits(n as nat),
{
    let mut text = String::new();
    push_decimal(&mut text, n as u64);
    assert(text@ =~= decimal_digits(n as nat));
    text
}

impl ListingQuery {
    /// The address of the listing: the address of the catalog, and behind
    /// it the parameters that are set.
    pub fn url(&self) -> (url: String)
        ensures
            url@ == self@.url(),
    {
        let ghost base = "https://mods.factorio.com/api/mods"@;
        let mut url = String::from_str("https://mods.factorio.com/api/mods");
        let mut count: usize = 0;
        let ghost mut parameters: Seq<Seq<char>> = Seq::empty();
        match self.page {
            Some(n) => {
                let value = decimal_text(n);
                proof {
                    lemma_joined_push(parameters, parameter("page"@, value@), base);
                    parameters = parameters.push(parameter("page"@, value@));
                }
                push_parameter(&mut url, &mut count, "page", value.as_str());
            },
            None => {},
        }
        assert(count == parameters.len() && count <= 1);
        assert(count > 0 ==> url@ == base.push('?') + joined_parameters(parameters));
        assert(count == 0 ==> url@ == base);
        match self.page_size {
            Some(n) => {
                let value = decimal_text(n);
                proof {
                    lemma_joined_push(parameters, parameter("page_size"@, value@), base);
                    parameters = parameters.push(parameter("page_size"@, value@));
                }
                push_parameter(&mut url, &mut count, "page_size", value.as_str());
            },
            None => {},
        }
        assert(count == parameters.len() && count <= 2);
        assert(count > 0 ==> url@ == base.push('?') + joined_parameters(parameters));
        assert(count == 0 ==> url@ == base);
        match self.hide_deprecated {
            Some(b) => {
                let value = if b {
                    "true"
                } else {
                    "false"
                };
                proof {
                    lemma_joined_push(parameters, parameter("hide_deprecated"@, value@), base);
                    parameters = parameters.push(parameter("hide_deprecated"@, value@));
                }
                push_parameter(&mut url, &mut count, "hide_deprecated", value);
            },
            None => {},
        }
        assert(count == parameters.len() && count <= 3);
        assert(count > 0 ==> url@ == base.push('?') + joined_parameters(parameters));
        assert(count == 0 ==> url@ == base);
        match &self.version {
            Some(value) => {
                proof {
                    lemma_joined_push(parameters, parameter("version"@, value@), base);
                    parameters = parameters.push(parameter("version"@, value@));
                }
                push_parameter(&mut url, &mut count, "version", value.as_str());
            },
            None => {},
        }
        assert(count == parameters.len() && count <= 4);
        assert(count > 0 ==> url@ == base.push('?') + joined_parameters(parameters));
        assert(count == 0 ==> url@ == base);
        match &self.sort {
            Some(value) => {
                proof {
                    lemma_joined_push(parameters, parameter("sort"@, value@), base);
                    parameters = parameters.push(parameter("sort"@, value@));
                }
                push_parameter(&mut url, &mut count, "sort", value.as_str());
            },
            None => {},
        }
        assert(count == parameters.len() && count <= 5);
        assert(count > 0 ==> url@ == base.push('?') + joined_parameters(parameters));
        assert(count == 0 ==> url@ == base);
        match &self.sort_order {
            Some(value) => {
                proof {
                    lemma_joined_push(parameters, parameter("sort_order"@, value@), base);
                    parameters = parameters.push(parameter("sort_order"@, value@));
                }
                push_parameter(&mut url, &mut count, "sort_order", value.as_str());
            },
            None => {},
        }
        assert(count == parameters.len());
        assert(count > 0 ==> url@ == base.push('?') + joined_parameters(parameters));
        assert(count == 0 ==> url@ == base);
        assert(parameters == self@.parameters());
        url
    }
}

} // verus!
