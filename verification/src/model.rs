//! The game record kept in the state file and the pieces it is made of.

use vstd::prelude::*;

use crate::text::{chars_of, str_eq_chars, string_from_chars};

verus! {

/// The character sequence an optional string holds.
pub open spec fn opt_str(o: Option<String>) -> Option<Seq<char>> {
    match o {
        Some(s) => Some(s@),
        None => None,
    }
}

/// A copy of an optional string.
pub fn clone_opt(o: &Option<String>) -> (r: Option<String>)
    ensures
        r == *o,
{
    match o {
        Some(s) => Some(s.clone()),
        None => None,
    }
}

/// Kind of game.
#[derive(Clone, Copy, Debug, PartialEq, Eq, Hash, Structural)]
pub enum Category {
    Port,
    Decomp,
    Recomp,
    Fangame,
    Wine,
    Arcade,
    Emulator,
    Tool,
    Custom,
}

/// The lowercase name of a category.
pub open spec fn category_name(c: Category) -> Seq<char> {
    match c {
        Category::Port => "port"@,
        Category::Decomp => "decomp"@,
        Category::Recomp => "recomp"@,
        Category::Fangame => "fangame"@,
        Category::Wine => "wine"@,
        Category::Arcade => "arcade"@,
        Category::Emulator => "emulator"@,
        Category::Tool => "tool"@,
        Category::Custom => "custom"@,
    }
}

/// The category with the given lowercase name, if any.
pub open spec fn category_named(s: Seq<char>) -> Option<Category> {
    if s == "port"@ {
        Some(Category::Port)
    } else if s == "decomp"@ {
        Some(Category::Decomp)
    } else if s == "recomp"@ {
        Some(Category::Recomp)
    } else if s == "fangame"@ {
        Some(Category::Fangame)
    } else if s == "wine"@ {
        Some(Category::Wine)
    } else if s == "arcade"@ {
        Some(Category::Arcade)
    } else if s == "emulator"@ {
        Some(Category::Emulator)
    } else if s == "tool"@ {
        Some(Category::Tool)
    } else if s == "custom"@ {
        Some(Category::Custom)
    } else {
        None
    }
}

impl Category {
    /// The lowercase name used in files and on the command line.
    pub fn as_str(&self) -> (r: &'static str)
        ensures
            r@ == category_name(*self),
    {
        proof {
            reveal_strlit("port");
            reveal_strlit("decomp");
            reveal_strlit("recomp");
            reveal_strlit("fangame");
            reveal_strlit("wine");
            reveal_strlit("arcade");
            reveal_strlit("emulator");
            reveal_strlit("tool");
            reveal_strlit("custom");
        }
        match self {
            Category::Port => "port",
            Category::Decomp => "decomp",
            Category::Recomp => "recomp",
            Category::Fangame => "fangame",
            Category::Wine => "wine",
            Category::Arcade => "arcade",
            Category::Emulator => "emulator",
            Category::Tool => "tool",
            Category::Custom => "custom",
        }
    }

    /// The category whose lowercase name is exactly `name`.
    pub fn from_name(name: &str) -> (r: Option<Category>)
        ensures
            r == category_named(name@),
    {
        let n = chars_of(name);
        if str_eq_chars("port", &n) {
            Some(Category::Port)
        } else if str_eq_chars("decomp", &n) {
            Some(Category::Decomp)
        } else if str_eq_chars("recomp", &n) {
            Some(Category::Recomp)
        } else if str_eq_chars("fangame", &n) {
            Some(Category::Fangame)
        } else if str_eq_chars("wine", &n) {
            Some(Category::Wine)
        } else if str_eq_chars("arcade", &n) {
            Some(Category::Arcade)
        } else if str_eq_chars("emulator", &n) {
            Some(Category::Emulator)
        } else if str_eq_chars("tool", &n) {
            Some(Category::Tool)
        } else if str_eq_chars("custom", &n) {
            Some(Category::Custom)
        } else {
            None
        }
    }
}

proof fn lemma_category_name_inverse(c: Category)
    ensures
        category_named(category_name(c)) == Some(c),
{
    reveal_strlit("port");
    reveal_strlit("decomp");
    reveal_strlit("recomp");
    reveal_strlit("fangame");
    reveal_strlit("wine");
    reveal_strlit("arcade");
    reveal_strlit("emulator");
    reveal_strlit("tool");
    reveal_strlit("custom");
    let names = seq![
        "port"@,
        "decomp"@,
        "recomp"@,
        "fangame"@,
        "wine"@,
        "arcade"@,
        "emulator"@,
        "tool"@,
        "custom"@,
    ];
    assert forall|i: int, j: int| 0 <= i < j < 9 implies names[i] != names[j] by {
        if names[i].len() == names[j].len() {
            assert(names[i][0] != names[j][0] || names[i][1] != names[j][1]);
        }
    }
    match c {
        Category::Port => {},
        Category::Decomp => assert(names[1] != names[0]),
        Category::Recomp => {
            assert(names[2] != names[0] && names[2] != names[1]);
        },
        Category::Fangame => {
            assert(names[3] != names[0] && names[3] != names[1] && names[3] != names[2]);
        },
        Category::Wine => {
            assert(names[4] != names[0] && names[4] != names[1] && names[4] != names[2]
                && names[4] != names[3]);
        },
        Category::Arcade => {
            assert(names[5] != names[0] && names[5] != names[1] && names[5] != names[2]
                && names[5] != names[3] && names[5] != names[4]);
        },
        Category::Emulator => {
            assert(names[6] != names[0] && names[6] != names[1] && names[6] != names[2]
                && names[6] != names[3] && names[6] != names[4] && names[6] != names[5]);
        },
        Category::Tool => {
            assert(names[7] != names[0] && names[7] != names[1] && names[7] != names[2]
                && names[7] != names[3] && names[7] != names[4] && names[7] != names[5]
                && names[7] != names[6]);
        },
        Category::Custom => {
            assert(names[8] != names[0] && names[8] != names[1] && names[8] != names[2]
                && names[8] != names[3] && names[8] != names[4] && names[8] != names[5]
                && names[8] != names[6] && names[8] != names[7]);
        },
    }
}

proof fn lemma_category_named_name(s: Seq<char>)
    ensures
        category_named(s) matches Some(c) ==> category_name(c) == s,
{
}

/// Names and `from_name` are inverse to each other.
pub proof fn lemma_category_name_round_trip(c: Category, s: Seq<char>)
    ensures
        category_named(category_name(c)) == Some(c),
        category_named(s) matches Some(k) ==> category_name(k) == s,
{
    lemma_category_name_inverse(c);
    lemma_category_named_name(s);
}

/// GitHub release tracking of a game.
#[derive(Clone, Debug, PartialEq)]
pub struct GithubInfo {
    pub repo: String,
    pub latest_tag: Option<String>,
    pub latest_url: Option<String>,
    pub published_at: Option<String>,
    pub checked_at: Option<String>,
    pub has_update: bool,
}

impl GithubInfo {
    /// Release tracking for `repo` that has never been checked.
    pub fn unchecked(repo: String) -> (r: GithubInfo)
        ensures
            r.repo == repo,
            r.latest_tag is None,
            r.latest_url is None,
            r.published_at is None,
            r.checked_at is None,
            !r.has_update,
    {
        GithubInfo {
            repo,
            latest_tag: None,
            latest_url: None,
            published_at: None,
            checked_at: None,
            has_update: false,
        }
    }

    /// A copy.
    pub fn duplicate(&self) -> (r: GithubInfo)
        ensures
            r == *self,
    {
        GithubInfo {
            repo: self.repo.clone(),
            latest_tag: clone_opt(&self.latest_tag),
            latest_url: clone_opt(&self.latest_url),
            published_at: clone_opt(&self.published_at),
            checked_at: clone_opt(&self.checked_at),
            has_update: self.has_update,
        }
    }
}

/// SteamGridDB artwork and metadata of a game.
#[derive(Clone, Debug, PartialEq)]
pub struct SgdbInfo {
    pub id: u64,
    pub release_date: Option<String>,
    pub cover: Option<String>,
    pub hero: Option<String>,
}

impl SgdbInfo {
    /// A copy.
    pub fn duplicate(&self) -> (r: SgdbInfo)
        ensures
            r == *self,
    {
        SgdbInfo {
            id: self.id,
            release_date: clone_opt(&self.release_date),
            cover: clone_opt(&self.cover),
            hero: clone_opt(&self.hero),
        }
    }
}

/// Web-page update tracking of a game (a download page watched for a
/// version string or for any change).
#[derive(Clone, Debug, PartialEq)]
pub struct WebInfo {
    pub url: Option<String>,
    pub update_url: String,
    pub regex: Option<String>,
    pub latest: Option<String>,
    pub latest_is_version: bool,
    pub checked_at: Option<String>,
    pub has_update: bool,
}

impl WebInfo {
    /// A copy.
    pub fn duplicate(&self) -> (r: WebInfo)
        ensures
            r == *self,
    {
        WebInfo {
            url: clone_opt(&self.url),
            update_url: self.update_url.clone(),
            regex: clone_opt(&self.regex),
            latest: clone_opt(&self.latest),
            latest_is_version: self.latest_is_version,
            checked_at: clone_opt(&self.checked_at),
            has_update: self.has_update,
        }
    }
}

/// A game as recorded in the state file.
#[derive(Clone, Debug, PartialEq)]
pub struct Game {
    pub id: String,
    pub name: String,
    pub category: Category,
    pub exec_line: String,
    pub icon: String,
    pub desktop_id: Option<String>,
    pub custom: bool,
    pub added_at: String,
    pub last_played: Option<String>,
    pub play_count: u64,
    pub installed_version: Option<String>,
    pub github: Option<GithubInfo>,
    pub sgdb: Option<SgdbInfo>,
    pub web: Option<WebInfo>,
}

/// A copy of an optional GitHub record.
pub fn clone_github(o: &Option<GithubInfo>) -> (r: Option<GithubInfo>)
    ensures
        r == *o,
{
    match o {
        Some(g) => Some(g.duplicate()),
        None => None,
    }
}

/// A copy of an optional artwork record.
pub fn clone_sgdb(o: &Option<SgdbInfo>) -> (r: Option<SgdbInfo>)
    ensures
        r == *o,
{
    match o {
        Some(g) => Some(g.duplicate()),
        None => None,
    }
}

/// A copy of an optional web record.
pub fn clone_web(o: &Option<WebInfo>) -> (r: Option<WebInfo>)
    ensures
        r == *o,
{
    match o {
        Some(g) => Some(g.duplicate()),
        None => None,
    }
}

impl Game {
    /// A copy.
    pub fn duplicate(&self) -> (r: Game)
        ensures
            r == *self,
    {
        Game {
            id: self.id.clone(),
            name: self.name.clone(),
            category: self.category,
            exec_line: self.exec_line.clone(),
            icon: self.icon.clone(),
            desktop_id: clone_opt(&self.desktop_id),
            custom: self.custom,
            added_at: self.added_at.clone(),
            last_played: clone_opt(&self.last_played),
            play_count: self.play_count,
            installed_version: clone_opt(&self.installed_version),
            github: clone_github(&self.github),
            sgdb: clone_sgdb(&self.sgdb),
            web: clone_web(&self.web),
        }
    }
}

/// A game the user added by hand.
#[derive(Clone, Debug, PartialEq)]
pub struct CustomGame {
    pub id: String,
    pub name: String,
    pub exec_line: String,
    pub category: Category,
    pub github: Option<String>,
    pub sgdb_query: Option<String>,
    pub icon: Option<String>,
}

impl CustomGame {
    /// A copy.
    pub fn duplicate(&self) -> (r: CustomGame)
        ensures
            r == *self,
    {
        CustomGame {
            id: self.id.clone(),
            name: self.name.clone(),
            exec_line: self.exec_line.clone(),
            category: self.category,
            github: clone_opt(&self.github),
            sgdb_query: clone_opt(&self.sgdb_query),
            icon: clone_opt(&self.icon),
        }
    }
}

/// Category of a custom game whose entry names none.
pub fn default_custom_category() -> (r: Category)
    ensures
        r == Category::Custom,
{
    Category::Custom
}

/// Icon used when a game names none.
pub const DEFAULT_ICON: &'static str = "applications-games";

/// The characters of `DEFAULT_ICON`.
pub open spec fn default_icon() -> Seq<char> {
    "applications-games"@
}

/// A fresh `String` holding `DEFAULT_ICON`.
pub fn default_icon_string() -> (r: String)
    ensures
        r@ == default_icon(),
{
    let v = chars_of("applications-games");
    string_from_chars(&v)
}

/// The values a `GithubInfo` holds.
pub ghost struct GithubInfoV {
    pub repo: Seq<char>,
    pub latest_tag: Option<Seq<char>>,
    pub latest_url: Option<Seq<char>>,
    pub published_at: Option<Seq<char>>,
    pub checked_at: Option<Seq<char>>,
    pub has_update: bool,
}

impl View for GithubInfo {
    type V = GithubInfoV;

    open spec fn view(&self) -> GithubInfoV {
        GithubInfoV {
            repo: self.repo@,
            latest_tag: opt_str(self.latest_tag),
            latest_url: opt_str(self.latest_url),
            published_at: opt_str(self.published_at),
            checked_at: opt_str(self.checked_at),
            has_update: self.has_update,
        }
    }
}

/// Release tracking of `repo` that has never been checked.
pub open spec fn unchecked_github(repo: Seq<char>) -> GithubInfoV {
    GithubInfoV {
        repo,
        latest_tag: None,
        latest_url: None,
        published_at: None,
        checked_at: None,
        has_update: false,
    }
}

/// The values an `SgdbInfo` holds.
pub ghost struct SgdbInfoV {
    pub id: u64,
    pub release_date: Option<Seq<char>>,
    pub cover: Option<Seq<char>>,
    pub hero: Option<Seq<char>>,
}

impl View for SgdbInfo {
    type V = SgdbInfoV;

    open spec fn view(&self) -> SgdbInfoV {
        SgdbInfoV {
            id: self.id,
            release_date: opt_str(self.release_date),
            cover: opt_str(self.cover),
            hero: opt_str(self.hero),
        }
    }
}

/// The values a `WebInfo` holds.
pub ghost struct WebInfoV {
    pub url: Option<Seq<char>>,
    pub update_url: Seq<char>,
    pub regex: Option<Seq<char>>,
    pub latest: Option<Seq<char>>,
    pub latest_is_version: bool,
    pub checked_at: Option<Seq<char>>,
    pub has_update: bool,
}

impl View for WebInfo {
    type V = WebInfoV;

    open spec fn view(&self) -> WebInfoV {
        WebInfoV {
            url: opt_str(self.url),
            update_url: self.update_url@,
            regex: opt_str(self.regex),
            latest: opt_str(self.latest),
            latest_is_version: self.latest_is_version,
            checked_at: opt_str(self.checked_at),
            has_update: self.has_update,
        }
    }
}

/// The values a `Game` holds.
pub ghost struct GameV {
    pub id: Seq<char>,
    pub name: Seq<char>,
    pub category: Category,
    pub exec_line: Seq<char>,
    pub icon: Seq<char>,
    pub desktop_id: Option<Seq<char>>,
    pub custom: bool,
    pub added_at: Seq<char>,
    pub last_played: Option<Seq<char>>,
    pub play_count: u64,
    pub installed_version: Option<Seq<char>>,
    pub github: Option<GithubInfoV>,
    pub sgdb: Option<SgdbInfoV>,
    pub web: Option<WebInfoV>,
}

impl View for Game {
    type V = GameV;

    open spec fn view(&self) -> GameV {
        GameV {
            id: self.id@,
            name: self.name@,
            category: self.category,
            exec_line: self.exec_line@,
            icon: self.icon@,
            desktop_id: opt_str(self.desktop_id),
            custom: self.custom,
            added_at: self.added_at@,
            last_played: opt_str(self.last_played),
            play_count: self.play_count,
            installed_version: opt_str(self.installed_version),
            github: match self.github {
                Some(g) => Some(g@),
                None => None,
            },
            sgdb: match self.sgdb {
                Some(g) => Some(g@),
                None => None,
            },
            web: match self.web {
                Some(g) => Some(g@),
                None => None,
            },
        }
    }
}

/// The values held by a sequence of games.
pub open spec fn game_views(s: Seq<Game>) -> Seq<GameV> {
    s.map_values(|g: Game| g@)
}

/// The values a `CustomGame` holds.
pub ghost struct CustomGameV {
    pub id: Seq<char>,
    pub name: Seq<char>,
    pub exec_line: Seq<char>,
    pub category: Category,
    pub github: Option<Seq<char>>,
    pub sgdb_query: Option<Seq<char>>,
    pub icon: Option<Seq<char>>,
}

impl View for CustomGame {
    type V = CustomGameV;

    open spec fn view(&self) -> CustomGameV {
        CustomGameV {
            id: self.id@,
            name: self.name@,
            exec_line: self.exec_line@,
            category: self.category,
            github: opt_str(self.github),
            sgdb_query: opt_str(self.sgdb_query),
            icon: opt_str(self.icon),
        }
    }
}

} // verus!
