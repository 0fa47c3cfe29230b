//! User configuration (`config.toml`) and its defaults.

use vstd::prelude::*;

use crate::desktop::string_views;
use crate::paths::{path_join, Paths};

verus! {

/// The desktop-file stems picked up without an `X-OGM-Managed` marker.
pub open spec fn default_globs() -> Seq<Seq<char>> {
    seq![
        "gaming-*"@,
        "pc-*"@,
        "screamer"@,
        "screamer2"@,
        "screamer-rally"@,
        "ridge-racer"@,
        "sega-rally-hd"@,
        "streets-of-rage-remake"@,
        "virtua-fighter"@,
        "virtua-racing"@,
    ]
}

/// The default desktop globs (see `default_globs`).
pub fn default_desktop_globs() -> (r: Vec<String>)
    ensures
        string_views(r@) == default_globs(),
{
    let mut v: Vec<String> = Vec::new();
    v.push("gaming-*".to_owned());
    v.push("pc-*".to_owned());
    v.push("screamer".to_owned());
    v.push("screamer2".to_owned());
    v.push("screamer-rally".to_owned());
    v.push("ridge-racer".to_owned());
    v.push("sega-rally-hd".to_owned());
    v.push("streets-of-rage-remake".to_owned());
    v.push("virtua-fighter".to_owned());
    v.push("virtua-racing".to_owned());
    assert(string_views(v@) =~= default_globs());
    v
}

/// Settings from `config.toml`; keys left out take their defaults.
#[derive(Clone, Debug, PartialEq)]
pub struct Config {
    pub sgdb_api_key: String,
    pub github_token: Option<String>,
    pub refresh_interval_hours: u64,
    pub desktop_globs: Vec<String>,
    pub applications_dirs: Vec<String>,
    /// Extra catalog fragment dirs, checked after the default catalog.d.
    pub catalog_dirs: Vec<String>,
}

impl Default for Config {
    /// No SteamGridDB key, no GitHub token, a three-hour refresh interval,
    /// the default globs and no directories.
    fn default() -> (r: Config)
        ensures
            r.sgdb_api_key@ == Seq::<char>::empty(),
            r.github_token is None,
            r.refresh_interval_hours == 3,
            string_views(r.desktop_globs@) == default_globs(),
            r.applications_dirs@.len() == 0,
            r.catalog_dirs@.len() == 0,
    {
        Config {
            sgdb_api_key: String::new(),
            github_token: None,
            refresh_interval_hours: 3,
            desktop_globs: default_desktop_globs(),
            applications_dirs: Vec::new(),
            catalog_dirs: Vec::new(),
        }
    }
}

impl Config {
    /// The configuration as loaded, with `applications_dirs` falling back
    /// to the XDG applications directory when none is configured.
    pub fn with_default_applications(self, paths: &Paths) -> (r: Config)
        ensures
            r.sgdb_api_key == self.sgdb_api_key,
            r.github_token == self.github_token,
            r.refresh_interval_hours == self.refresh_interval_hours,
            r.desktop_globs == self.desktop_globs,
            r.catalog_dirs == self.catalog_dirs,
            self.applications_dirs@.len() == 0 ==> string_views(r.applications_dirs@) == seq![
                paths.applications_dir@,
            ],
            self.applications_dirs@.len() > 0 ==> r.applications_dirs == self.applications_dirs,
    {
        let mut config = self;
        if config.applications_dirs.len() == 0 {
            let mut dirs: Vec<String> = Vec::new();
            dirs.push(paths.applications_dir.clone());
            assert(string_views(dirs@) =~= seq![paths.applications_dir@]);
            config.applications_dirs = dirs;
        }
        config
    }

    /// Default catalog.d first, then any configured extra dirs.
    pub fn all_catalog_dirs(&self, paths: &Paths) -> (r: Vec<String>)
        ensures
            string_views(r@) == seq![path_join(paths.config_dir@, "catalog.d"@)] + string_views(
                self.catalog_dirs@,
            ),
    {
        let mut out: Vec<String> = Vec::new();
        out.push(paths.catalog_d_dir());
        let mut i: usize = 0;
        while i < self.catalog_dirs.len()
            invariant
                i <= self.catalog_dirs@.len(),
                string_views(out@) == seq![path_join(paths.config_dir@, "catalog.d"@)] + string_views(
                    self.catalog_dirs@.subrange(0, i as int),
                ),
            decreases self.catalog_dirs.len() - i,
        {
            let ghost before = out@;
            let d = self.catalog_dirs[i].clone();
            out.push(d);
            proof {
                assert(out@ == before.push(d));
                assert(string_views(out@) =~= string_views(before).push(d@));
                assert(self.catalog_dirs@.subrange(0, i as int + 1) =~= self.catalog_dirs@.subrange(
                    0,
                    i as int,
                ).push(self.catalog_dirs@[i as int]));
                assert(string_views(out@) =~= seq![path_join(paths.config_dir@, "catalog.d"@)]
                    + string_views(self.catalog_dirs@.subrange(0, i as int + 1)));
            }
            i = i + 1;
        }
        assert(self.catalog_dirs@.subrange(0, self.catalog_dirs@.len() as int) =~= self.catalog_dirs@);
        out
    }
}

} // verus!
