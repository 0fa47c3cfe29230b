//! Web-page update checks: the version a page announces (through a
//! user-supplied regular expression), the fingerprint of a page, and how a
//! check result is recorded.

use vstd::prelude::*;

use crate::model::{opt_str, WebInfo, WebInfoV};
use crate::text::{chars_eq, chars_of, string_from_chars, trim};

verus! {

/// What `regex::Regex::new(pattern)` followed by `Regex::captures(body)`
/// gives: `None` when the pattern does not compile or nothing in `body`
/// matches, else the text of every capture group of the leftmost match
/// (group 0 first), `None` for a group that did not take part.
pub uninterp spec fn regex_first_captures(pattern: Seq<char>, body: Seq<char>) -> Option<Seq<Option<Seq<char>>>>;

/// The character sequences held by captured groups.
pub open spec fn group_views(v: Seq<Option<String>>) -> Seq<Option<Seq<char>>> {
    v.map_values(|g: Option<String>| opt_str(g))
}

/// Compiles `pattern` with `regex::Regex::new` and, when it compiles, runs
/// `Regex::captures` on `body`, handing out each group's text. The result
/// is `regex_first_captures` of the arguments; as the crate documents,
/// a match always has group 0 (the whole match).
#[verifier::external_body]
fn regex_captures(pattern: &str, body: &str) -> (r: Option<Vec<Option<String>>>)
    ensures
        match r {
            Some(v) => regex_first_captures(pattern@, body@) == Some(group_views(v@)),
            None => regex_first_captures(pattern@, body@) is None,
        },
        r matches Some(v) ==> v@.len() >= 1 && v@[0] is Some,
{
    let re = regex::Regex::new(pattern).ok()?;
    let caps = re.captures(body)?;
    Some(caps.iter().map(|m| m.map(|m| m.as_str().to_string())).collect())
}

/// The version a match gives: capture group 1 when the pattern has it and
/// it took part in the match, else the whole match.
pub open spec fn version_of_groups(groups: Seq<Option<Seq<char>>>) -> Option<Seq<char>> {
    if groups.len() > 1 && groups[1] is Some {
        groups[1]
    } else if groups.len() > 0 {
        groups[0]
    } else {
        None
    }
}

/// What `extract_version` finds for a captures result.
pub open spec fn version_of_captures(caps: Option<Seq<Option<Seq<char>>>>) -> Option<Seq<char>> {
    match caps {
        Some(g) => version_of_groups(g),
        None => None,
    }
}

/// Picks the version out of the capture groups of a match (see
/// `version_of_groups`); `None` when there was no match.
pub fn version_from_captures(caps: &Option<Vec<Option<String>>>) -> (r: Option<String>)
    ensures
        opt_str(r) == version_of_captures(
            match caps {
                Some(v) => Some(group_views(v@)),
                None => None,
            },
        ),
{
    match caps {
        None => None,
        Some(v) => {
            proof {
                assert(group_views(v@).len() == v@.len());
            }
            if v.len() > 1 {
                match &v[1] {
                    Some(s) => {
                        proof {
                            assert(group_views(v@)[1] == opt_str(v@[1]));
                        }
                        return Some(s.clone());
                    },
                    None => {},
                }
            }
            if v.len() > 0 {
                proof {
                    assert(group_views(v@)[0] == opt_str(v@[0]));
                }
                match &v[0] {
                    Some(s) => Some(s.clone()),
                    None => None,
                }
            } else {
                None
            }
        },
    }
}

/// Applies an update regex to a page: capture group 1 is the version
/// string; a pattern without groups uses the whole match. `None` when the
/// pattern is invalid or matches nothing.
pub fn extract_version(body: &str, pattern: &str) -> (r: Option<String>)
    ensures
        opt_str(r) == version_of_captures(regex_first_captures(pattern@, body@)),
        regex_first_captures(pattern@, body@) is None ==> r is None,
        regex_first_captures(pattern@, body@) is Some ==> r is Some,
{
    let caps = regex_captures(pattern, body);
    let r = version_from_captures(&caps);
    proof {
        match caps {
            Some(v) => {
                assert(group_views(v@)[0] == opt_str(v@[0]));
            },
            None => {},
        }
    }
    r
}

/// What `sha2::Sha256::digest` returns for `data`: its SHA-256 digest.
pub uninterp spec fn sha256_digest(data: Seq<u8>) -> Seq<u8>;

/// The SHA-256 digest of `data` through `sha2::Sha256::digest`; a digest
/// is 32 bytes long.
#[verifier::external_body]
fn sha256(data: &[u8]) -> (r: Vec<u8>)
    ensures
        r@ == sha256_digest(data@),
        r@.len() == 32,
{
    <sha2::Sha256 as sha2::Digest>::digest(data).to_vec()
}

/// The lowercase hexadecimal digit of `d` (below 16).
pub open spec fn hex_digit(d: int) -> char {
    if d < 10 {
        (d + 48) as char
    } else {
        (d + 87) as char
    }
}

/// Lowercase hexadecimal text of some bytes, two digits per byte.
pub open spec fn hex_text(bytes: Seq<u8>) -> Seq<char>
    decreases bytes.len(),
{
    if bytes.len() == 0 {
        Seq::empty()
    } else {
        hex_text(bytes.drop_last()) + seq![
            hex_digit((bytes.last() / 16) as int),
            hex_digit((bytes.last() % 16) as int),
        ]
    }
}

fn hex_char(d: u8) -> (c: char)
    requires
        d < 16,
    ensures
        c == hex_digit(d as int),
{
    if d < 10 {
        (d + 48) as char
    } else {
        (d + 87) as char
    }
}

/// Lowercase hexadecimal text of `bytes`.
pub fn hex_string(bytes: &Vec<u8>) -> (r: String)
    ensures
        r@ == hex_text(bytes@),
        r@.len() == 2 * bytes@.len(),
{
    let mut out: Vec<char> = Vec::new();
    let mut i: usize = 0;
    while i < bytes.len()
        invariant
            i <= bytes.len(),
            out@ == hex_text(bytes@.subrange(0, i as int)),
            out@.len() == 2 * i,
        decreases bytes.len() - i,
    {
        let b = bytes[i];
        out.push(hex_char(b / 16));
        out.push(hex_char(b % 16));
        proof {
            let pre = bytes@.subrange(0, i as int + 1);
            assert(pre.drop_last() =~= bytes@.subrange(0, i as int));
            assert(pre.last() == b);
        }
        i = i + 1;
    }
    proof {
        assert(bytes@.subrange(0, bytes@.len() as int) =~= bytes@);
    }
    string_from_chars(&out)
}

/// The fingerprint of a page: its trimmed ETag header when not blank,
/// else its trimmed Last-Modified header when not blank, else the
/// lowercase hex SHA-256 of the body's UTF-8 bytes.
pub open spec fn fingerprint_of(etag: Option<Seq<char>>, last_modified: Option<Seq<char>>, body: Seq<char>) -> Seq<char> {
    if etag is Some && trim(etag->0).len() > 0 {
        trim(etag->0)
    } else if last_modified is Some && trim(last_modified->0).len() > 0 {
        trim(last_modified->0)
    } else {
        hex_text(sha256_digest(vstd::utf8::encode_utf8(body)))
    }
}

fn trimmed_nonblank(s: Option<&str>) -> (r: Option<Vec<char>>)
    ensures
        match s {
            Some(x) => if trim(x@).len() > 0 {
                r is Some && r->0@ == trim(x@)
            } else {
                r is None
            },
            None => r is None,
        },
{
    match s {
        None => None,
        Some(x) => {
            let v = chars_of(x);
            let t = crate::text::trim_chars(&v);
            if t.len() > 0 {
                Some(t)
            } else {
                None
            }
        },
    }
}

/// Content fingerprint of a fetched page: ETag preferred, else
/// Last-Modified, else the SHA-256 hex of the body.
pub fn fingerprint(etag: Option<&str>, last_modified: Option<&str>, body: &str) -> (r: String)
    ensures
        r@ == fingerprint_of(
            match etag {
                Some(e) => Some(e@),
                None => None,
            },
            match last_modified {
                Some(l) => Some(l@),
                None => None,
            },
            body@,
        ),
{
    match trimmed_nonblank(etag) {
        Some(t) => {
            return string_from_chars(&t);
        },
        None => {},
    }
    match trimmed_nonblank(last_modified) {
        Some(t) => {
            return string_from_chars(&t);
        },
        None => {},
    }
    let bytes = body.as_bytes();
    let digest = sha256(bytes);
    hex_string(&digest)
}

/// The record after a check found `found` at time `now`: the first
/// result is a baseline without an update; a later, different result
/// flags an update; an unchanged result leaves the flag as it was. The
/// check time is always recorded.
pub open spec fn web_after_check(w: WebInfoV, found: Seq<char>, is_version: bool, now: Seq<char>) -> WebInfoV {
    match w.latest {
        None => WebInfoV {
            latest: Some(found),
            latest_is_version: is_version,
            has_update: false,
            checked_at: Some(now),
            ..w
        },
        Some(prev) => if prev == found {
            WebInfoV { checked_at: Some(now), ..w }
        } else {
            WebInfoV {
                latest: Some(found),
                latest_is_version: is_version,
                has_update: true,
                checked_at: Some(now),
                ..w
            }
        },
    }
}

/// Finding the same result again changes nothing but the check time.
pub proof fn lemma_same_result_again(w: WebInfoV, found: Seq<char>, is_version: bool, t1: Seq<char>, t2: Seq<char>)
    ensures
        web_after_check(web_after_check(w, found, is_version, t1), found, is_version, t2) == web_after_check(
            w,
            found,
            is_version,
            t2,
        ),
{
}

/// Records a check result (see `web_after_check`). Only launching the
/// game clears the badge.
pub fn apply_web_check(web: &mut WebInfo, found: String, is_version: bool, now: &str)
    ensures
        final(web)@ == web_after_check(old(web)@, found@, is_version, now@),
{
    web.checked_at = Some(now.to_owned());
    let same = match &web.latest {
        None => None,
        Some(prev) => {
            let a = chars_of(prev.as_str());
            let b = chars_of(found.as_str());
            Some(chars_eq(&a, &b))
        },
    };
    match same {
        None => {
            web.latest = Some(found);
            web.latest_is_version = is_version;
            web.has_update = false;
        },
        Some(true) => {},
        Some(false) => {
            web.latest = Some(found);
            web.latest_is_version = is_version;
            web.has_update = true;
        },
    }
}

} // verus!
