use vstd::prelude::*;

use crate::text::string_of;

verus! {

/// Colour theme of the application.
#[derive(Clone, Copy, PartialEq, Eq, Structural, Debug)]
pub enum ThemeType {
    Light,
    Dark,
}

/// Which service to search.
#[derive(Clone, Copy, PartialEq, Eq, Structural, Debug, Hash)]
pub enum SearchKind {
    Tvdb,
    Tmdb,
}

impl SearchKind {
    /// The service's name: `thetvdb.com` or `themoviedb.com`.
    pub fn to_string(&self) -> (s: String)
        ensures
            s@ == match *self {
                SearchKind::Tvdb => "thetvdb.com"@,
                SearchKind::Tmdb => "themoviedb.com"@,
            },
    {
        match self {
            SearchKind::Tvdb => string_of("thetvdb.com"),
            SearchKind::Tmdb => string_of("themoviedb.com"),
        }
    }
}

impl Default for ThemeType {
    fn default() -> (r: ThemeType)
        ensures
            r == ThemeType::Dark,
    {
        ThemeType::Dark
    }
}

impl Default for SearchKind {
    fn default() -> (r: SearchKind)
        ensures
            r == SearchKind::Tmdb,
    {
        SearchKind::Tmdb
    }
}

/// Days that the schedule covers unless configured.
pub fn default_days() -> (r: u64)
    ensures
        r == 7,
{
    7
}

/// Dashboard rows unless configured.
pub fn default_dashboard_limit() -> (r: usize)
    ensures
        r == 1,
{
    1
}

/// Dashboard items per row unless configured.
pub fn default_dashboard_page() -> (r: usize)
    ensures
        r == 6,
{
    6
}

/// Schedule rows unless configured.
pub fn default_schedule_limit() -> (r: usize)
    ensures
        r == 1,
{
    1
}

/// Schedule items per row unless configured.
pub fn default_schedule_page() -> (r: usize)
    ensures
        r == 7,
{
    7
}

/// The larger of a count and one.
pub open spec fn at_least_one(n: usize) -> nat {
    if n < 1 {
        1
    } else {
        n as nat
    }
}

/// The configuration used when none is stored: dark theme, no API keys, a
/// week of schedule, searches on themoviedb.org, one dashboard row of six
/// and one schedule row of seven.
pub open spec fn is_default_config(c: Config) -> bool {
    &&& c.theme == ThemeType::Dark
    &&& c.tvdb_legacy_apikey@ == Seq::<char>::empty()
    &&& c.tmdb_api_key@ == Seq::<char>::empty()
    &&& c.schedule_duration_days == 7
    &&& c.search_kind == SearchKind::Tmdb
    &&& c.dashboard_limit == 1
    &&& c.dashboard_page == 6
    &&& c.schedule_limit == 1
    &&& c.schedule_page == 7
}

/// The application configuration.
#[derive(Debug)]
pub struct Config {
    pub theme: ThemeType,
    pub tvdb_legacy_apikey: String,
    pub tmdb_api_key: String,
    pub schedule_duration_days: u64,
    pub search_kind: SearchKind,
    pub dashboard_limit: usize,
    pub dashboard_page: usize,
    pub schedule_limit: usize,
    pub schedule_page: usize,
}

impl Clone for Config {
    fn clone(&self) -> (r: Config)
        ensures
            r == *self,
    {
        Config {
            theme: self.theme,
            tvdb_legacy_apikey: self.tvdb_legacy_apikey.clone(),
            tmdb_api_key: self.tmdb_api_key.clone(),
            schedule_duration_days: self.schedule_duration_days,
            search_kind: self.search_kind,
            dashboard_limit: self.dashboard_limit,
            dashboard_page: self.dashboard_page,
            schedule_limit: self.schedule_limit,
            schedule_page: self.schedule_page,
        }
    }
}

impl Default for Config {
    fn default() -> (c: Config)
        ensures
            is_default_config(c),
    {
        Config::new()
    }
}

impl Config {
    /// The configuration used when none is stored.
    pub fn new() -> (c: Config)
        ensures
            is_default_config(c),
    {
        Config {
            theme: ThemeType::default(),
            tvdb_legacy_apikey: String::new(),
            tmdb_api_key: String::new(),
            schedule_duration_days: default_days(),
            search_kind: SearchKind::default(),
            dashboard_limit: default_dashboard_limit(),
            dashboard_page: default_dashboard_page(),
            schedule_limit: default_schedule_limit(),
            schedule_page: default_schedule_page(),
        }
    }

    /// How many items the dashboard shows: rows times items per row, each
    /// counted as at least one.
    pub fn dashboard_limit(&self) -> (r: usize)
        requires
            at_least_one(self.dashboard_limit) * at_least_one(self.dashboard_page) <= usize::MAX,
        ensures
            r == at_least_one(self.dashboard_limit) * at_least_one(self.dashboard_page),
    {
        let limit = if self.dashboard_limit < 1 {
            1
        } else {
            self.dashboard_limit
        };
        let page = if self.dashboard_page < 1 {
            1
        } else {
            self.dashboard_page
        };
        limit * page
    }

    /// Items per dashboard row, at least one.
    pub fn dashboard_page(&self) -> (r: usize)
        ensures
            r == at_least_one(self.dashboard_page),
    {
        if self.dashboard_page < 1 {
            1
        } else {
            self.dashboard_page
        }
    }

    /// Items per schedule row, at least one.
    pub fn schedule_page(&self) -> (r: usize)
        ensures
            r == at_least_one(self.schedule_page),
    {
        if self.schedule_page < 1 {
            1
        } else {
            self.schedule_page
        }
    }
}

} // verus!
