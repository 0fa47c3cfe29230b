//! Where the configuration, data and cache files live.

use vstd::prelude::*;

use crate::text::{chars_of, clone_chars, push_all, string_from_chars};

verus! {

/// `Path::join` on Unix: an absolute `seg` replaces `base`; otherwise `seg`
/// is appended, with a `/` in between unless `base` is empty or already
/// ends with one.
pub open spec fn path_join(base: Seq<char>, seg: Seq<char>) -> Seq<char> {
    if seg.len() > 0 && seg[0] == '/' {
        seg
    } else if base.len() == 0 || base.last() == '/' {
        base + seg
    } else {
        base + seq!['/'] + seg
    }
}

/// `base` joined with `seg` (see `path_join`).
pub fn join_path(base: &str, seg: &str) -> (r: String)
    ensures
        r@ == path_join(base@, seg@),
{
    let b = chars_of(base);
    let s = chars_of(seg);
    if s.len() > 0 && s[0] == '/' {
        return string_from_chars(&s);
    }
    let mut out = clone_chars(&b);
    if !(b.len() == 0 || b[b.len() - 1] == '/') {
        out.push('/');
    }
    push_all(&mut out, &s);
    proof {
        assert(b@.len() > 0 ==> b@.last() == b@[b@.len() - 1]);
    }
    string_from_chars(&out)
}

/// The directories the program reads and writes.
#[derive(Clone, Debug, PartialEq, Eq)]
pub struct Paths {
    pub config_dir: String,
    pub data_dir: String,
    pub cache_dir: String,
    pub applications_dir: String,
}

impl Paths {
    /// The layout under the XDG base directories: `ogm` below the config,
    /// data and cache homes, and the `applications` directory below the
    /// data home.
    pub fn from_bases(config_home: &str, data_home: &str, cache_home: &str) -> (r: Paths)
        ensures
            r.config_dir@ == path_join(config_home@, "ogm"@),
            r.data_dir@ == path_join(data_home@, "ogm"@),
            r.cache_dir@ == path_join(cache_home@, "ogm"@),
            r.applications_dir@ == path_join(data_home@, "applications"@),
    {
        Paths {
            config_dir: join_path(config_home, "ogm"),
            data_dir: join_path(data_home, "ogm"),
            cache_dir: join_path(cache_home, "ogm"),
            applications_dir: join_path(data_home, "applications"),
        }
    }

    /// Everything under one explicit root (tests, sandboxes).
    pub fn from_root(root: &str) -> (r: Paths)
        ensures
            r.config_dir@ == path_join(root@, "config"@),
            r.data_dir@ == path_join(root@, "data"@),
            r.cache_dir@ == path_join(root@, "cache"@),
            r.applications_dir@ == path_join(root@, "applications"@),
    {
        Paths {
            config_dir: join_path(root, "config"),
            data_dir: join_path(root, "data"),
            cache_dir: join_path(root, "cache"),
            applications_dir: join_path(root, "applications"),
        }
    }

    /// `config.toml` in the config directory.
    pub fn config_file(&self) -> (r: String)
        ensures
            r@ == path_join(self.config_dir@, "config.toml"@),
    {
        join_path(self.config_dir.as_str(), "config.toml")
    }

    /// `games.json` (custom and hidden games) in the config directory.
    pub fn games_file(&self) -> (r: String)
        ensures
            r@ == path_join(self.config_dir@, "games.json"@),
    {
        join_path(self.config_dir.as_str(), "games.json")
    }

    /// `state.json` in the data directory.
    pub fn state_file(&self) -> (r: String)
        ensures
            r@ == path_join(self.data_dir@, "state.json"@),
    {
        join_path(self.data_dir.as_str(), "state.json")
    }

    /// The cover art directory in the cache directory.
    pub fn covers_dir(&self) -> (r: String)
        ensures
            r@ == path_join(self.cache_dir@, "covers"@),
    {
        join_path(self.cache_dir.as_str(), "covers")
    }

    /// The catalog fragment directory in the config directory.
    pub fn catalog_d_dir(&self) -> (r: String)
        ensures
            r@ == path_join(self.config_dir@, "catalog.d"@),
    {
        join_path(self.config_dir.as_str(), "catalog.d")
    }
}

} // verus!
