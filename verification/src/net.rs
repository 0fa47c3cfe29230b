//! What the network clients decide: request URLs, how an HTTP status is
//! answered, how much of a page is kept, and how GitHub and SteamGridDB
//! answers are read.

use vstd::prelude::*;

use crate::desktop::{clone_strings, string_views};
use crate::fmt::{decimal, decimal_chars};
use crate::json::{
    as_array, as_i64, as_str, as_u64, get_field, json_array, json_field, json_i64, json_str, json_text,
    json_u64, parse_json, Json,
};
use crate::model::opt_str;
use crate::text::{chars_eq, chars_of, lowercase, push_all, string_from_chars, to_lowercase_chars, trim, trim_chars};
use crate::time::{date_text_of, epoch_to_date};

verus! {

/// What `http::StatusCode::canonical_reason` gives for a valid status
/// code (`100..=999`): the standard reason phrase, if the code has one.
pub uninterp spec fn canonical_reason(code: u16) -> Option<Seq<char>>;

/// The reason phrase of a status code through
/// `reqwest::StatusCode::from_u16` and `StatusCode::canonical_reason`;
/// the result is `canonical_reason` of the code.
#[verifier::external_body]
fn status_reason(code: u16) -> (r: Option<String>)
    requires
        100 <= code <= 999,
    ensures
        opt_str(r) == canonical_reason(code),
{
    reqwest::StatusCode::from_u16(code).ok().and_then(|s| s.canonical_reason()).map(|s| s.to_owned())
}

/// A failed request.
#[derive(Clone, Debug, PartialEq, Eq)]
pub enum NetError {
    /// The request did not complete (the transport's own message).
    Transport(String),
    /// GitHub refused the request for the rate limit.
    RateLimited,
    /// The server answered with an unexpected HTTP status.
    Status(u16),
    /// The answer could not be read.
    Parse(String),
    /// No SteamGridDB API key is configured.
    MissingApiKey,
}

/// How `http::StatusCode` displays: the code and its reason phrase.
pub open spec fn status_text(code: u16) -> Seq<char> {
    decimal(code as nat) + " "@ + if 100 <= code <= 999 && canonical_reason(code) is Some {
        canonical_reason(code)->0
    } else {
        "<unknown status code>"@
    }
}

/// The text of a network error.
pub open spec fn net_error_text(e: NetError) -> Seq<char> {
    match e {
        NetError::Transport(m) => "transport error: "@ + m@,
        NetError::RateLimited => "GitHub rate limit exceeded"@,
        NetError::Status(c) => "unexpected status "@ + status_text(c),
        NetError::Parse(m) => "failed to parse response: "@ + m@,
        NetError::MissingApiKey => "missing SteamGridDB API key"@,
    }
}

impl NetError {
    /// The error as a sentence (see `net_error_text`).
    pub fn message(&self) -> (r: String)
        ensures
            r@ == net_error_text(*self),
    {
        let out = match self {
            NetError::Transport(m) => {
                let mut v = chars_of("transport error: ");
                push_all(&mut v, &chars_of(m.as_str()));
                v
            },
            NetError::RateLimited => chars_of("GitHub rate limit exceeded"),
            NetError::Status(c) => {
                let mut v = chars_of("unexpected status ");
                push_all(&mut v, &decimal_chars(*c as u64));
                v.push(' ');
                let reason = if 100 <= *c && *c <= 999 {
                    status_reason(*c)
                } else {
                    None
                };
                match reason {
                    Some(r) => push_all(&mut v, &chars_of(r.as_str())),
                    None => push_all(&mut v, &chars_of("<unknown status code>")),
                }
                proof {
                    reveal_strlit(" ");
                }
                v
            },
            NetError::Parse(m) => {
                let mut v = chars_of("failed to parse response: ");
                push_all(&mut v, &chars_of(m.as_str()));
                v
            },
            NetError::MissingApiKey => chars_of("missing SteamGridDB API key"),
        };
        string_from_chars(&out)
    }
}

/// Whether an HTTP status is a success (`200..300`).
pub fn is_success(status: u16) -> (r: bool)
    ensures
        r == (200 <= status < 300),
{
    200 <= status && status < 300
}

/// The latest release of a GitHub repository.
#[derive(Clone, Debug, PartialEq, Eq)]
pub struct Release {
    pub tag: String,
    pub url: String,
    pub published_at: Option<String>,
    pub etag: Option<String>,
}

/// What asking for the latest release came to.
#[derive(Clone, Debug, PartialEq, Eq)]
pub enum ReleaseOutcome {
    Released(Release),
    NotModified,
    NotFound,
}

/// The API URL of a repository's latest release.
pub fn github_release_url(repo: &str) -> (r: String)
    ensures
        r@ == "https://api.github.com/repos/"@ + repo@ + "/releases/latest"@,
{
    let mut v = chars_of("https://api.github.com/repos/");
    push_all(&mut v, &chars_of(repo));
    push_all(&mut v, &chars_of("/releases/latest"));
    string_from_chars(&v)
}

/// The next step after the status of a latest-release request: an
/// answer, or reading the body of a successful response.
#[derive(Debug)]
pub enum ReleaseStep {
    Answer(Result<ReleaseOutcome, NetError>),
    ReadBody,
}

/// How a latest-release status is answered: 304 is not modified, 404 not
/// found, 403 with no rate limit left is the rate limit; any other
/// success reads the body, anything else is an unexpected status.
pub open spec fn release_step(status: u16, ratelimit_remaining: Option<Seq<char>>) -> ReleaseStep {
    if status == 304 {
        ReleaseStep::Answer(Ok(ReleaseOutcome::NotModified))
    } else if status == 404 {
        ReleaseStep::Answer(Ok(ReleaseOutcome::NotFound))
    } else if status == 403 && ratelimit_remaining == Some("0"@) {
        ReleaseStep::Answer(Err(NetError::RateLimited))
    } else if 200 <= status < 300 {
        ReleaseStep::ReadBody
    } else {
        ReleaseStep::Answer(Err(NetError::Status(status)))
    }
}

/// Decides on a latest-release response from its status and its
/// `x-ratelimit-remaining` header (see `release_step`).
pub fn classify_release_status(status: u16, ratelimit_remaining: Option<&str>) -> (r: ReleaseStep)
    ensures
        r == release_step(
            status,
            match ratelimit_remaining {
                Some(s) => Some(s@),
                None => None,
            },
        ),
{
    if status == 304 {
        ReleaseStep::Answer(Ok(ReleaseOutcome::NotModified))
    } else if status == 404 {
        ReleaseStep::Answer(Ok(ReleaseOutcome::NotFound))
    } else if status == 403 && match ratelimit_remaining {
        Some(s) => {
            let c = chars_of(s);
            proof {
                reveal_strlit("0");
            }
            c.len() == 1 && c[0] == '0' && {
                assert(c@ =~= "0"@);
                true
            }
        },
        None => false,
    } {
        ReleaseStep::Answer(Err(NetError::RateLimited))
    } else if is_success(status) {
        proof {
            reveal_strlit("0");
            if status == 403 {
                if let Some(s) = ratelimit_remaining {
                    if s@ == "0"@ {
                        assert(s@.len() == 1 && s@[0] == '0');
                    }
                }
            }
        }
        ReleaseStep::ReadBody
    } else {
        proof {
            reveal_strlit("0");
            if status == 403 {
                if let Some(s) = ratelimit_remaining {
                    if s@ == "0"@ {
                        assert(s@.len() == 1 && s@[0] == '0');
                    }
                }
            }
        }
        ReleaseStep::Answer(Err(NetError::Status(status)))
    }
}

/// What the release answer holds: the tag (required), the page URL
/// (empty when missing) and the publication time.
pub open spec fn release_fields(parsed: Json) -> Option<(Seq<char>, Seq<char>, Option<Seq<char>>)> {
    match json_str(json_field(parsed, "tag_name"@)) {
        None => None,
        Some(tag) => Some(
            (
                tag,
                match json_str(json_field(parsed, "html_url"@)) {
                    Some(u) => u,
                    None => Seq::empty(),
                },
                json_str(json_field(parsed, "published_at"@)),
            ),
        ),
    }
}

/// Reads the answer of `GET /repos/{owner}/{repo}/releases/latest`,
/// already parsed as JSON (`Err` holding the JSON parser's message).
pub fn release_from_json(parsed: Result<Json, String>) -> (r: Result<Release, NetError>)
    ensures
        match parsed {
            Err(m) => r == Err::<Release, NetError>(NetError::Parse(m)),
            Ok(j) => match release_fields(j) {
                None => r is Err && r->Err_0 is Parse && r->Err_0->Parse_0@ == "missing tag_name"@,
                Some((tag, url, published)) => r is Ok && r->Ok_0.tag@ == tag && r->Ok_0.url@ == url
                    && opt_str(r->Ok_0.published_at) == published && r->Ok_0.etag is None,
            },
        },
{
    let v = match parsed {
        Err(m) => return Err(NetError::Parse(m)),
        Ok(v) => v,
    };
    let tag = match as_str(get_field(&v, "tag_name")) {
        Some(t) => t.to_owned(),
        None => return Err(NetError::Parse("missing tag_name".to_owned())),
    };
    let url = match as_str(get_field(&v, "html_url")) {
        Some(u) => u.to_owned(),
        None => String::new(),
    };
    let published_at = match as_str(get_field(&v, "published_at")) {
        Some(p) => Some(p.to_owned()),
        None => None,
    };
    Ok(Release { tag, url, published_at, etag: None })
}

/// Reads the body of `GET /repos/{owner}/{repo}/releases/latest`: the
/// tag (required), the page URL (empty when missing) and the publication
/// time; a body that is not JSON, or has no tag, is a parse error.
pub fn parse_release_response(body: &str) -> (r: Result<Release, NetError>)
    ensures
        match json_text(body@) {
            Err(m) => r is Err && r->Err_0 is Parse && r->Err_0->Parse_0@ == m,
            Ok(j) => match release_fields(j) {
                None => r is Err && r->Err_0 is Parse && r->Err_0->Parse_0@ == "missing tag_name"@,
                Some((tag, url, published)) => r is Ok && r->Ok_0.tag@ == tag && r->Ok_0.url@ == url
                    && opt_str(r->Ok_0.published_at) == published && r->Ok_0.etag is None,
            },
        },
{
    release_from_json(parse_json(body))
}

/// A release read from the body of a successful response, with the
/// response's ETag.
pub fn released(body: &str, etag: Option<String>) -> (r: Result<ReleaseOutcome, NetError>)
    ensures
        match json_text(body@) {
            Err(m) => r is Err && r->Err_0 is Parse && r->Err_0->Parse_0@ == m,
            Ok(j) => match release_fields(j) {
                None => r is Err && r->Err_0 is Parse && r->Err_0->Parse_0@ == "missing tag_name"@,
                Some((tag, url, published)) => r is Ok && r->Ok_0 is Released && r->Ok_0->Released_0.tag@
                    == tag && r->Ok_0->Released_0.url@ == url && opt_str(r->Ok_0->Released_0.published_at)
                    == published && r->Ok_0->Released_0.etag == etag,
            },
        },
{
    match parse_release_response(body) {
        Ok(mut rel) => {
            rel.etag = etag;
            Ok(ReleaseOutcome::Released(rel))
        },
        Err(e) => Err(e),
    }
}

/// At most this many bytes of a page are kept.
pub const MAX_BODY: usize = 2097152;

/// A fetched web page.
#[derive(Clone, Debug, PartialEq, Eq)]
pub struct Page {
    pub etag: Option<String>,
    pub last_modified: Option<String>,
    pub body: String,
}

/// Adds a received chunk to a page body, keeping at most `MAX_BODY`
/// bytes; `false` once the limit is reached and reading should stop.
pub fn append_chunk(body: &mut Vec<u8>, chunk: &[u8]) -> (more: bool)
    requires
        old(body)@.len() <= MAX_BODY,
    ensures
        old(body)@.len() + chunk@.len() > MAX_BODY ==> !more && final(body)@ == old(body)@ + chunk@.subrange(
            0,
            MAX_BODY - old(body)@.len(),
        ),
        old(body)@.len() + chunk@.len() <= MAX_BODY ==> more && final(body)@ == old(body)@ + chunk@,
        final(body)@.len() <= MAX_BODY,
{
    let room = MAX_BODY - body.len();
    let take = if chunk.len() > room {
        room
    } else {
        chunk.len()
    };
    let ghost start = body@;
    let mut i: usize = 0;
    while i < take
        invariant
            i <= take <= chunk@.len(),
            take <= room,
            room == MAX_BODY - start.len(),
            body@ == start + chunk@.subrange(0, i as int),
        decreases take - i,
    {
        body.push(chunk[i]);
        assert(body@ =~= start + chunk@.subrange(0, i as int + 1));
        i = i + 1;
    }
    if take == chunk.len() {
        assert(chunk@.subrange(0, take as int) =~= chunk@);
    }
    take == chunk.len() && chunk.len() <= room
}

/// A game as SteamGridDB's search knows it.
#[derive(Clone, Debug, PartialEq, Eq)]
pub struct SgdbGame {
    pub id: u64,
    pub name: String,
    pub release_date: Option<String>,
    pub types: Vec<String>,
}

impl SgdbGame {
    /// A copy.
    pub fn duplicate(&self) -> (r: SgdbGame)
        ensures
            r@ == self@,
    {
        SgdbGame {
            id: self.id,
            name: self.name.clone(),
            release_date: crate::model::clone_opt(&self.release_date),
            types: clone_strings(&self.types),
        }
    }
}

/// The values an `SgdbGame` holds.
pub ghost struct SgdbGameV {
    pub id: u64,
    pub name: Seq<char>,
    pub release_date: Option<Seq<char>>,
    pub types: Seq<Seq<char>>,
}

impl View for SgdbGame {
    type V = SgdbGameV;

    open spec fn view(&self) -> SgdbGameV {
        SgdbGameV {
            id: self.id,
            name: self.name@,
            release_date: opt_str(self.release_date),
            types: string_views(self.types@),
        }
    }
}

/// The values held by a sequence of search results.
pub open spec fn sgdb_views(v: Seq<SgdbGame>) -> Seq<SgdbGameV> {
    v.map_values(|g: SgdbGame| g@)
}

/// The strings among some JSON values, in order.
pub open spec fn json_strings(items: Seq<Json>) -> Seq<Seq<char>>
    decreases items.len(),
{
    if items.len() == 0 {
        Seq::empty()
    } else {
        match items.last() {
            Json::Str(s) => json_strings(items.drop_last()).push(s@),
            _ => json_strings(items.drop_last()),
        }
    }
}

/// The game a search hit describes: hits without an integer `id` are
/// dropped; a missing name is empty; a positive epoch release date
/// becomes `YYYY-MM-DD`; the store types are the strings of `types`.
pub open spec fn hit_game(hit: Json) -> Option<SgdbGameV> {
    match json_u64(json_field(hit, "id"@)) {
        None => None,
        Some(id) => Some(
            SgdbGameV {
                id,
                name: match json_str(json_field(hit, "name"@)) {
                    Some(n) => n,
                    None => Seq::empty(),
                },
                release_date: match json_i64(json_field(hit, "release_date"@)) {
                    Some(d) => if d > 0 {
                        Some(date_text_of(d))
                    } else {
                        None
                    },
                    None => None,
                },
                types: match json_array(json_field(hit, "types"@)) {
                    Some(items) => json_strings(items),
                    None => Seq::empty(),
                },
            },
        ),
    }
}

/// The games of the hits, in order.
pub open spec fn hit_games(hits: Seq<Json>) -> Seq<SgdbGameV>
    decreases hits.len(),
{
    if hits.len() == 0 {
        Seq::empty()
    } else {
        match hit_game(hits.last()) {
            Some(g) => hit_games(hits.drop_last()).push(g),
            None => hit_games(hits.drop_last()),
        }
    }
}

/// The games whose lowercase name is (or, with `exact` false, is not)
/// `q`, in order.
pub open spec fn named_games(games: Seq<SgdbGameV>, q: Seq<char>, exact: bool) -> Seq<SgdbGameV>
    decreases games.len(),
{
    if games.len() == 0 {
        Seq::empty()
    } else if (lowercase(games.last().name) == q) == exact {
        named_games(games.drop_last(), q, exact).push(games.last())
    } else {
        named_games(games.drop_last(), q, exact)
    }
}

/// The search results for `query`: exact (case-insensitive) name matches
/// first, autocomplete order otherwise preserved.
pub open spec fn search_results(query: Seq<char>, hits: Seq<Json>) -> Seq<SgdbGameV> {
    let q = lowercase(trim(query));
    named_games(hit_games(hits), q, true) + named_games(hit_games(hits), q, false)
}

fn strings_of(items: &Vec<Json>) -> (r: Vec<String>)
    ensures
        string_views(r@) == json_strings(items@),
{
    let mut out: Vec<String> = Vec::new();
    let mut i: usize = 0;
    while i < items.len()
        invariant
            i <= items@.len(),
            string_views(out@) == json_strings(items@.subrange(0, i as int)),
        decreases items.len() - i,
    {
        let ghost pre = items@.subrange(0, i as int + 1);
        proof {
            assert(pre.drop_last() =~= items@.subrange(0, i as int));
            assert(pre.last() == items@[i as int]);
        }
        match &items[i] {
            Json::Str(s) => {
                let ghost before = out@;
                out.push(s.clone());
                assert(string_views(out@) =~= string_views(before).push(s@));
            },
            _ => {},
        }
        i = i + 1;
    }
    assert(items@.subrange(0, items@.len() as int) =~= items@);
    out
}

fn game_of_hit(hit: &Json) -> (r: Option<SgdbGame>)
    ensures
        match r {
            Some(g) => hit_game(*hit) == Some(g@),
            None => hit_game(*hit) is None,
        },
{
    let id = match as_u64(get_field(hit, "id")) {
        Some(id) => id,
        None => return None,
    };
    let name = match as_str(get_field(hit, "name")) {
        Some(n) => n.to_owned(),
        None => String::new(),
    };
    let release_date = match as_i64(get_field(hit, "release_date")) {
        Some(d) => if d > 0 {
            Some(epoch_to_date(d))
        } else {
            None
        },
        None => None,
    };
    let types = match as_array(get_field(hit, "types")) {
        Some(items) => strings_of(items),
        None => Vec::new(),
    };
    let g = SgdbGame { id, name, release_date, types };
    proof {
        if json_array(json_field(*hit, "types"@)) is None {
            assert(string_views(g.types@) =~= Seq::<Seq<char>>::empty());
        }
    }
    Some(g)
}

fn name_matches(g: &SgdbGame, q: &Vec<char>) -> (r: bool)
    ensures
        r == (lowercase(g.name@) == q@),
{
    let n = chars_of(g.name.as_str());
    let l = to_lowercase_chars(&n);
    chars_eq(&l, q)
}

fn select_named(games: &Vec<SgdbGame>, q: &Vec<char>, exact: bool, out: &mut Vec<SgdbGame>)
    ensures
        sgdb_views(final(out)@) == sgdb_views(old(out)@) + named_games(sgdb_views(games@), q@, exact),
{
    let ghost start = sgdb_views(out@);
    let mut i: usize = 0;
    while i < games.len()
        invariant
            i <= games@.len(),
            sgdb_views(out@) == start + named_games(sgdb_views(games@).subrange(0, i as int), q@, exact),
        decreases games.len() - i,
    {
        let ghost pre = sgdb_views(games@).subrange(0, i as int + 1);
        proof {
            assert(pre.drop_last() =~= sgdb_views(games@).subrange(0, i as int));
            assert(pre.last() == games@[i as int]@);
        }
        if name_matches(&games[i], q) == exact {
            let ghost before = out@;
            let g = games[i].duplicate();
            out.push(g);
            assert(sgdb_views(out@) =~= sgdb_views(before).push(g@));
        }
        i = i + 1;
    }
    assert(sgdb_views(games@).subrange(0, games@.len() as int) =~= sgdb_views(games@));
}

/// Reads the answer of `/search/autocomplete/{term}`, already parsed as
/// JSON (`Err` holding the JSON parser's message): every hit with an id,
/// exact (case-insensitive, trimmed) name matches for `query` first,
/// autocomplete order otherwise preserved. No `data` array means no
/// candidates.
pub fn search_from_json(query: &str, parsed: Result<Json, String>) -> (r: Result<Vec<SgdbGame>, NetError>)
    ensures
        match parsed {
            Err(m) => r == Err::<Vec<SgdbGame>, NetError>(NetError::Parse(m)),
            Ok(j) => r is Ok && sgdb_views(r->Ok_0@) == match json_array(json_field(j, "data"@)) {
                Some(hits) => search_results(query@, hits),
                None => Seq::empty(),
            },
        },
{
    let v = match parsed {
        Err(m) => return Err(NetError::Parse(m)),
        Ok(v) => v,
    };
    let data = match as_array(get_field(&v, "data")) {
        Some(arr) => arr,
        None => {
            let empty: Vec<SgdbGame> = Vec::new();
            assert(sgdb_views(empty@) =~= Seq::<SgdbGameV>::empty());
            return Ok(empty);
        },
    };
    let mut games: Vec<SgdbGame> = Vec::new();
    let mut i: usize = 0;
    while i < data.len()
        invariant
            i <= data@.len(),
            sgdb_views(games@) == hit_games(data@.subrange(0, i as int)),
        decreases data.len() - i,
    {
        let ghost pre = data@.subrange(0, i as int + 1);
        proof {
            assert(pre.drop_last() =~= data@.subrange(0, i as int));
            assert(pre.last() == data@[i as int]);
        }
        match game_of_hit(&data[i]) {
            Some(g) => {
                let ghost before = games@;
                games.push(g);
                assert(sgdb_views(games@) =~= sgdb_views(before).push(g@));
            },
            None => {},
        }
        i = i + 1;
    }
    assert(data@.subrange(0, data@.len() as int) =~= data@);
    let qc = chars_of(query);
    let q = to_lowercase_chars(&trim_chars(&qc));
    let mut out: Vec<SgdbGame> = Vec::new();
    assert(sgdb_views(out@) =~= Seq::<SgdbGameV>::empty());
    select_named(&games, &q, true, &mut out);
    select_named(&games, &q, false, &mut out);
    Ok(out)
}

/// Reads the body of `/search/autocomplete/{term}` (see
/// `search_from_json`); a body that is not JSON is a parse error.
pub fn parse_search_response(query: &str, body: &str) -> (r: Result<Vec<SgdbGame>, NetError>)
    ensures
        match json_text(body@) {
            Err(m) => r is Err && r->Err_0 is Parse && r->Err_0->Parse_0@ == m,
            Ok(j) => r is Ok && sgdb_views(r->Ok_0@) == match json_array(json_field(j, "data"@)) {
                Some(hits) => search_results(query@, hits),
                None => Seq::empty(),
            },
        },
{
    search_from_json(query, parse_json(body))
}

/// The URL of the first asset in an answer's `data` array.
pub open spec fn first_asset_url(parsed: Json) -> Option<Seq<char>> {
    match json_array(json_field(parsed, "data"@)) {
        Some(items) => if items.len() > 0 {
            json_str(json_field(items[0], "url"@))
        } else {
            None
        },
        None => None,
    }
}

/// Reads the answer of `/grids/game/{id}` or `/heroes/game/{id}`, already
/// parsed as JSON: the first asset's URL wins.
pub fn asset_from_json(parsed: Result<Json, String>) -> (r: Result<Option<String>, NetError>)
    ensures
        match parsed {
            Err(m) => r == Err::<Option<String>, NetError>(NetError::Parse(m)),
            Ok(j) => r is Ok && opt_str(r->Ok_0) == first_asset_url(j),
        },
{
    let v = match parsed {
        Err(m) => return Err(NetError::Parse(m)),
        Ok(v) => v,
    };
    let url = match as_array(get_field(&v, "data")) {
        Some(items) => if items.len() > 0 {
            match as_str(get_field(&items[0], "url")) {
                Some(u) => Some(u.to_owned()),
                None => None,
            }
        } else {
            None
        },
        None => None,
    };
    Ok(url)
}

/// Reads the body of `/grids/game/{id}` or `/heroes/game/{id}`: the first
/// asset's URL wins; a body that is not JSON is a parse error.
pub fn parse_asset_response(body: &str) -> (r: Result<Option<String>, NetError>)
    ensures
        match json_text(body@) {
            Err(m) => r is Err && r->Err_0 is Parse && r->Err_0->Parse_0@ == m,
            Ok(j) => r is Ok && opt_str(r->Ok_0) == first_asset_url(j),
        },
{
    asset_from_json(parse_json(body))
}

/// The SteamGridDB API root.
pub open spec fn sgdb_base() -> Seq<char> {
    "https://www.steamgriddb.com/api/v2"@
}

/// `Err(MissingApiKey)` when no SteamGridDB key is configured.
pub fn check_api_key(api_key: &str) -> (r: Result<(), NetError>)
    ensures
        r is Err <==> api_key@.len() == 0,
        r is Err ==> r == Err::<(), NetError>(NetError::MissingApiKey),
{
    if chars_of(api_key).len() == 0 {
        Err(NetError::MissingApiKey)
    } else {
        Ok(())
    }
}

fn sgdb_url(path: Vec<char>) -> (r: String)
    ensures
        r@ == sgdb_base() + path@,
{
    let mut v = chars_of("https://www.steamgriddb.com/api/v2");
    push_all(&mut v, &path);
    string_from_chars(&v)
}

/// The autocomplete search URL for `query`.
pub fn sgdb_search_url(query: &str) -> (r: String)
    ensures
        r@ == sgdb_base() + "/search/autocomplete/"@ + query@,
{
    let mut p = chars_of("/search/autocomplete/");
    push_all(&mut p, &chars_of(query));
    sgdb_url(p)
}

/// The URL of a game's 600x900 grids.
pub fn sgdb_grid_url(game_id: u64) -> (r: String)
    ensures
        r@ == sgdb_base() + "/grids/game/"@ + decimal(game_id as nat) + "?dimensions=600x900"@,
{
    let mut p = chars_of("/grids/game/");
    push_all(&mut p, &decimal_chars(game_id));
    push_all(&mut p, &chars_of("?dimensions=600x900"));
    sgdb_url(p)
}

/// The URL of a game's heroes.
pub fn sgdb_hero_url(game_id: u64) -> (r: String)
    ensures
        r@ == sgdb_base() + "/heroes/game/"@ + decimal(game_id as nat),
{
    let mut p = chars_of("/heroes/game/");
    push_all(&mut p, &decimal_chars(game_id));
    sgdb_url(p)
}

} // verus!
