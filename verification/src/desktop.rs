//! Parsing of freedesktop `.desktop` files, including the `X-OGM-*`
//! game-menu metadata keys.

use vstd::prelude::*;

use crate::model::{clone_opt, opt_str, category_named, Category};
use crate::text::{char_views, chars_eq, chars_of, lowercase, push_all, split_chars, split_pieces, split_words, nonempty_pieces, starts_with, starts_with_exec, str_eq_chars, string_from_chars, sub_vec, to_lowercase_chars, trim, trim_chars, words, Sep};

verus! {

/// Game-menu metadata embedded in a .desktop file via `X-OGM-*` keys
/// (rendered by distrobox-gaming). `None` on DesktopEntry when no such
/// keys exist at all.
#[derive(Clone, Debug, PartialEq, Eq, Default)]
pub struct OgmMeta {
    /// X-OGM-Managed tri-state: `Some(true)` marks the entry as managed,
    /// `Some(false)` is an explicit opt-out that wins over glob discovery,
    /// `None` when the key is absent. Only "true" counts as opted in; any
    /// other explicit value is an opt-out.
    pub managed: Option<bool>,
    pub category: Option<Category>,
    pub github: Option<String>,
    pub sgdb_query: Option<String>,
    pub web_url: Option<String>,
    pub update_url: Option<String>,
    pub update_regex: Option<String>,
}

/// The values an `OgmMeta` holds.
pub ghost struct OgmMetaV {
    pub managed: Option<bool>,
    pub category: Option<Category>,
    pub github: Option<Seq<char>>,
    pub sgdb_query: Option<Seq<char>>,
    pub web_url: Option<Seq<char>>,
    pub update_url: Option<Seq<char>>,
    pub update_regex: Option<Seq<char>>,
}

impl View for OgmMeta {
    type V = OgmMetaV;

    open spec fn view(&self) -> OgmMetaV {
        OgmMetaV {
            managed: self.managed,
            category: self.category,
            github: opt_str(self.github),
            sgdb_query: opt_str(self.sgdb_query),
            web_url: opt_str(self.web_url),
            update_url: opt_str(self.update_url),
            update_regex: opt_str(self.update_regex),
        }
    }
}

/// The parsed `[Desktop Entry]` group of a .desktop file.
#[derive(Clone, Debug, PartialEq, Eq, Default)]
pub struct DesktopEntry {
    pub name: Option<String>,
    pub exec_line: Option<String>,
    pub icon: Option<String>,
    pub comment: Option<String>,
    pub categories: Vec<String>,
    pub ogm: Option<OgmMeta>,
}

/// The values a `DesktopEntry` holds.
pub ghost struct DesktopEntryV {
    pub name: Option<Seq<char>>,
    pub exec_line: Option<Seq<char>>,
    pub icon: Option<Seq<char>>,
    pub comment: Option<Seq<char>>,
    pub categories: Seq<Seq<char>>,
    pub ogm: Option<OgmMetaV>,
}

/// The character sequences held by a sequence of strings.
pub open spec fn string_views(v: Seq<String>) -> Seq<Seq<char>> {
    v.map_values(|s: String| s@)
}

impl View for DesktopEntry {
    type V = DesktopEntryV;

    open spec fn view(&self) -> DesktopEntryV {
        DesktopEntryV {
            name: opt_str(self.name),
            exec_line: opt_str(self.exec_line),
            icon: opt_str(self.icon),
            comment: opt_str(self.comment),
            categories: string_views(self.categories@),
            ogm: match self.ogm {
                Some(m) => Some(m@),
                None => None,
            },
        }
    }
}

/// A copy of a list of strings.
pub fn clone_strings(v: &Vec<String>) -> (r: Vec<String>)
    ensures
        r@ == v@,
{
    let mut out: Vec<String> = Vec::new();
    let mut i: usize = 0;
    while i < v.len()
        invariant
            i <= v@.len(),
            out@ == v@.subrange(0, i as int),
        decreases v.len() - i,
    {
        out.push(v[i].clone());
        assert(out@ =~= v@.subrange(0, i as int + 1));
        i = i + 1;
    }
    assert(v@.subrange(0, v@.len() as int) =~= v@);
    out
}

impl OgmMeta {
    /// A copy.
    pub fn duplicate(&self) -> (r: OgmMeta)
        ensures
            r == *self,
    {
        OgmMeta {
            managed: self.managed,
            category: self.category,
            github: clone_opt(&self.github),
            sgdb_query: clone_opt(&self.sgdb_query),
            web_url: clone_opt(&self.web_url),
            update_url: clone_opt(&self.update_url),
            update_regex: clone_opt(&self.update_regex),
        }
    }
}

impl DesktopEntry {
    /// A copy.
    pub fn duplicate(&self) -> (r: DesktopEntry)
        ensures
            r@ == self@,
    {
        DesktopEntry {
            name: clone_opt(&self.name),
            exec_line: clone_opt(&self.exec_line),
            icon: clone_opt(&self.icon),
            comment: clone_opt(&self.comment),
            categories: clone_strings(&self.categories),
            ogm: match &self.ogm {
                Some(m) => Some(m.duplicate()),
                None => None,
            },
        }
    }
}

/// Desktop-entry escapes: `\s`, `\n`, `\t` and `\\` decode; a backslash
/// before anything else, or at the end, stays as it is.
pub open spec fn unescaped(s: Seq<char>) -> Seq<char>
    decreases s.len(),
{
    if s.len() == 0 {
        Seq::<char>::empty()
    } else if s[0] == '\\' {
        if s.len() == 1 {
            seq!['\\']
        } else {
            let c = s[1];
            let head = if c == 's' {
                seq![' ']
            } else if c == 'n' {
                seq!['\n']
            } else if c == 't' {
                seq!['\t']
            } else if c == '\\' {
                seq!['\\']
            } else {
                seq!['\\', c]
            };
            head + unescaped(s.subrange(2, s.len() as int))
        }
    } else {
        seq![s[0]] + unescaped(s.drop_first())
    }
}

/// `str::replace("%%", "%")`.
pub open spec fn collapse_percent(s: Seq<char>) -> Seq<char>
    decreases s.len(),
{
    if s.len() >= 2 && s[0] == '%' && s[1] == '%' {
        seq!['%'] + collapse_percent(s.subrange(2, s.len() as int))
    } else if s.len() == 0 {
        Seq::<char>::empty()
    } else {
        seq![s[0]] + collapse_percent(s.drop_first())
    }
}

/// One of the Exec field codes `%f %F %u %U %i %c %k %d %D %n %N %v %m %w %x %A`.
pub open spec fn is_field_code(t: Seq<char>) -> bool {
    t.len() == 2 && t[0] == '%' && {
        let c = t[1];
        c == 'f' || c == 'F' || c == 'u' || c == 'U' || c == 'i' || c == 'c' || c == 'k' || c
            == 'd' || c == 'D' || c == 'n' || c == 'N' || c == 'v' || c == 'm' || c == 'w' || c
            == 'x' || c == 'A'
    }
}

/// The tokens of an Exec line that survive, rewritten: field codes go,
/// `%%` becomes `%`.
pub open spec fn kept_tokens(ts: Seq<Seq<char>>) -> Seq<Seq<char>>
    decreases ts.len(),
{
    if ts.len() == 0 {
        Seq::<Seq<char>>::empty()
    } else {
        let r = kept_tokens(ts.drop_last());
        let t = ts.last();
        if t.len() > 0 && t[0] == '%' && t == seq!['%', '%'] {
            r.push(seq!['%'])
        } else if t.len() > 0 && t[0] == '%' && is_field_code(t) {
            r
        } else {
            r.push(collapse_percent(t))
        }
    }
}

/// The pieces joined with single spaces.
pub open spec fn joined(ts: Seq<Seq<char>>) -> Seq<char>
    decreases ts.len(),
{
    if ts.len() == 0 {
        Seq::<char>::empty()
    } else if ts.len() == 1 {
        ts[0]
    } else {
        joined(ts.drop_last()) + seq![' '] + ts.last()
    }
}

/// An Exec line without its field codes, re-joined with single spaces.
pub open spec fn without_field_codes(exec: Seq<char>) -> Seq<char> {
    joined(kept_tokens(words(exec, Sep::Whitespace)))
}

/// Every Exec field code (`%f %F %u %U %i %c %k %d %D %n %N %v %m %w %x
/// %A`) is dropped: a code appended as a separate word leaves the cleaned
/// Exec line as it was.
pub proof fn lemma_field_codes_dropped(exec: Seq<char>, x: char)
    requires
        x == 'f' || x == 'F' || x == 'u' || x == 'U' || x == 'i' || x == 'c' || x == 'k' || x == 'd'
            || x == 'D' || x == 'n' || x == 'N' || x == 'v' || x == 'm' || x == 'w' || x == 'x' || x
            == 'A',
    ensures
        without_field_codes(exec + seq![' ', '%', x]) == without_field_codes(exec),
{
    let k = Sep::Whitespace;
    let t = seq!['%', x];
    assert(exec + seq![' ', '%', x] =~= exec.push(' ') + t);
    assert forall|i: int| 0 <= i < t.len() implies !crate::text::is_sep(k, #[trigger] t[i]) by {}
    crate::text::lemma_split_pieces_parts(exec, ' ', t, k);
    let ps = split_pieces(exec, k);
    assert(ps.push(t).drop_last() =~= ps);
    assert(nonempty_pieces(ps.push(t)) == nonempty_pieces(ps).push(t));
    let ws = nonempty_pieces(ps);
    assert(ws.push(t).drop_last() =~= ws);
    assert(t != seq!['%', '%']) by {
        assert(t[1] != '%');
    }
    assert(kept_tokens(ws.push(t)) == kept_tokens(ws));
}

proof fn lemma_collapse_plain(w: Seq<char>)
    requires
        forall|i: int| 0 <= i < w.len() ==> #[trigger] w[i] != '%',
    ensures
        collapse_percent(w) == w,
    decreases w.len(),
{
    if w.len() > 0 {
        assert(w[0] != '%');
        let t = w.drop_first();
        assert forall|i: int| 0 <= i < t.len() implies #[trigger] t[i] != '%' by {
            assert(t[i] == w[i + 1]);
        }
        lemma_collapse_plain(t);
        assert(seq![w[0]] + t =~= w);
    }
}

/// Other words are kept as they are: a word without whitespace or `%`
/// appended to an Exec line is appended to the cleaned line, after a
/// single space when the cleaned line is not empty.
pub proof fn lemma_plain_words_kept(exec: Seq<char>, w: Seq<char>)
    requires
        w.len() > 0,
        forall|i: int| 0 <= i < w.len() ==> #[trigger] w[i] != '%' && !crate::text::is_ws(w[i]),
    ensures
        without_field_codes(exec + seq![' '] + w) == if without_field_codes(exec).len() == 0 {
            w
        } else {
            without_field_codes(exec) + seq![' '] + w
        },
{
    let k = Sep::Whitespace;
    assert(exec + seq![' '] + w =~= exec.push(' ') + w);
    assert forall|i: int| 0 <= i < w.len() implies !crate::text::is_sep(k, #[trigger] w[i]) by {}
    crate::text::lemma_split_pieces_parts(exec, ' ', w, k);
    let ps = split_pieces(exec, k);
    assert(ps.push(w).drop_last() =~= ps);
    let ws = nonempty_pieces(ps);
    assert(nonempty_pieces(ps.push(w)) == ws.push(w));
    assert(ws.push(w).drop_last() =~= ws);
    assert(w[0] != '%');
    lemma_collapse_plain(w);
    let r = kept_tokens(ws);
    assert(kept_tokens(ws.push(w)) == r.push(w));
    assert(r.push(w).drop_last() =~= r);
    lemma_nonempty_words(ps);
    lemma_kept_nonempty(ws);
    lemma_joined_empty(r);
    if r.len() == 0 {
        assert(r.push(w) =~= seq![w]);
    }
}

proof fn lemma_nonempty_words(ps: Seq<Seq<char>>)
    ensures
        forall|i: int| 0 <= i < nonempty_pieces(ps).len() ==> (#[trigger] nonempty_pieces(ps)[i]).len() > 0,
    decreases ps.len(),
{
    if ps.len() > 0 {
        lemma_nonempty_words(ps.drop_last());
        let r = nonempty_pieces(ps.drop_last());
        let m = nonempty_pieces(ps);
        assert forall|i: int| 0 <= i < m.len() implies (#[trigger] m[i]).len() > 0 by {
            if i < r.len() {
                assert(m[i] == r[i]);
            }
        }
    }
}

proof fn lemma_kept_nonempty(ws: Seq<Seq<char>>)
    requires
        forall|i: int| 0 <= i < ws.len() ==> (#[trigger] ws[i]).len() > 0,
    ensures
        forall|i: int| 0 <= i < kept_tokens(ws).len() ==> (#[trigger] kept_tokens(ws)[i]).len() > 0,
    decreases ws.len(),
{
    if ws.len() > 0 {
        let d = ws.drop_last();
        assert forall|i: int| 0 <= i < d.len() implies (#[trigger] d[i]).len() > 0 by {
            assert(d[i] == ws[i]);
        }
        lemma_kept_nonempty(d);
        let r = kept_tokens(d);
        let m = kept_tokens(ws);
        let t = ws.last();
        assert(t == ws[ws.len() - 1]);
        assert(collapse_percent(t).len() > 0);
        assert forall|i: int| 0 <= i < m.len() implies (#[trigger] m[i]).len() > 0 by {
            if i < r.len() {
                assert(m[i] == r[i]);
            }
        }
    }
}

proof fn lemma_joined_empty(ts: Seq<Seq<char>>)
    requires
        forall|i: int| 0 <= i < ts.len() ==> (#[trigger] ts[i]).len() > 0,
    ensures
        (joined(ts).len() == 0) == (ts.len() == 0),
{
    if ts.len() == 1 {
        assert(ts[0].len() > 0);
    }
}

/// The trimmed pieces of a `;`-separated list, empty ones dropped.
pub open spec fn list_items(ps: Seq<Seq<char>>) -> Seq<Seq<char>>
    decreases ps.len(),
{
    if ps.len() == 0 {
        Seq::<Seq<char>>::empty()
    } else {
        let r = list_items(ps.drop_last());
        let t = trim(ps.last());
        if t.len() > 0 {
            r.push(t)
        } else {
            r
        }
    }
}

/// Metadata with none of the keys set.
pub open spec fn empty_meta() -> OgmMetaV {
    OgmMetaV {
        managed: None,
        category: None,
        github: None,
        sgdb_query: None,
        web_url: None,
        update_url: None,
        update_regex: None,
    }
}

/// An entry with none of the keys set.
pub open spec fn empty_entry() -> DesktopEntryV {
    DesktopEntryV {
        name: None,
        exec_line: None,
        icon: None,
        comment: None,
        categories: Seq::<Seq<char>>::empty(),
        ogm: None,
    }
}

/// The metadata after reading lowercase key `key` with trimmed value `v`.
pub open spec fn ogm_update(m: OgmMetaV, key: Seq<char>, v: Seq<char>) -> OgmMetaV {
    if key == "x-ogm-managed"@ {
        OgmMetaV { managed: Some(v == "true"@), ..m }
    } else if key == "x-ogm-category"@ {
        OgmMetaV { category: category_named(v), ..m }
    } else if key == "x-ogm-github"@ {
        OgmMetaV { github: Some(v), ..m }
    } else if key == "x-ogm-sgdbquery"@ {
        OgmMetaV { sgdb_query: Some(v), ..m }
    } else if key == "x-ogm-weburl"@ {
        OgmMetaV { web_url: Some(v), ..m }
    } else if key == "x-ogm-updateurl"@ {
        OgmMetaV { update_url: Some(v), ..m }
    } else if key == "x-ogm-updateregex"@ {
        OgmMetaV { update_regex: Some(v), ..m }
    } else {
        m
    }
}

/// The entry after reading standard key `key` (trimmed, case-sensitive)
/// with raw value `value`.
pub open spec fn standard_update(e: DesktopEntryV, key: Seq<char>, value: Seq<char>) -> DesktopEntryV {
    let v = trim(value);
    if key == "Name"@ {
        DesktopEntryV { name: Some(unescaped(v)), ..e }
    } else if key == "Exec"@ {
        DesktopEntryV { exec_line: Some(without_field_codes(unescaped(v))), ..e }
    } else if key == "Icon"@ {
        DesktopEntryV { icon: Some(v), ..e }
    } else if key == "Comment"@ {
        DesktopEntryV { comment: Some(unescaped(v)), ..e }
    } else if key == "Categories"@ {
        DesktopEntryV { categories: list_items(split_pieces(value, Sep::Semicolon)), ..e }
    } else {
        e
    }
}

/// Index of the first `c` in `s`.
pub open spec fn first_index_of(s: Seq<char>, c: char) -> Option<int>
    decreases s.len(),
{
    if s.len() == 0 {
        None
    } else {
        match first_index_of(s.drop_last(), c) {
            Some(i) => Some(i),
            None => if s.last() == c {
                Some(s.len() - 1)
            } else {
                None
            },
        }
    }
}

/// Parser state after one more line: the entry so far and whether the
/// current group is `[Desktop Entry]`.
pub open spec fn line_step(st: (DesktopEntryV, bool), raw: Seq<char>) -> (DesktopEntryV, bool) {
    let line = trim(raw);
    if line.len() == 0 || line[0] == '#' {
        st
    } else if line[0] == '[' {
        (st.0, line == "[Desktop Entry]"@)
    } else if !st.1 {
        st
    } else {
        match first_index_of(line, '=') {
            None => st,
            Some(p) => {
                let key = line.subrange(0, p);
                let value = line.subrange(p + 1, line.len() as int);
                let kl = lowercase(trim(key));
                if starts_with(kl, "x-ogm-"@) {
                    let m = match st.0.ogm {
                        Some(m) => m,
                        None => empty_meta(),
                    };
                    (DesktopEntryV { ogm: Some(ogm_update(m, kl, trim(value))), ..st.0 }, st.1)
                } else {
                    (standard_update(st.0, trim(key), value), st.1)
                }
            },
        }
    }
}

/// Parser state after the given lines.
pub open spec fn lines_state(lines: Seq<Seq<char>>) -> (DesktopEntryV, bool)
    decreases lines.len(),
{
    if lines.len() == 0 {
        (empty_entry(), false)
    } else {
        line_step(lines_state(lines.drop_last()), lines.last())
    }
}

/// What `parse_desktop` reads from `content`: the keys of the
/// `[Desktop Entry]` group, line by line, later lines overriding earlier
/// ones.
pub open spec fn parsed_desktop(content: Seq<char>) -> DesktopEntryV {
    lines_state(split_pieces(content, Sep::Newline)).0
}

/// Decodes desktop-entry escapes.
fn unescape(s: &Vec<char>) -> (r: Vec<char>)
    ensures
        r@ == unescaped(s@),
{
    let mut out: Vec<char> = Vec::new();
    let mut i: usize = 0;
    assert(s@.subrange(0, s.len() as int) =~= s@);
    assert(out@ + unescaped(s@) =~= unescaped(s@));
    while i < s.len()
        invariant
            i <= s.len(),
            unescaped(s@) == out@ + unescaped(s@.subrange(i as int, s.len() as int)),
        decreases s.len() - i,
    {
        let ghost rest = s@.subrange(i as int, s.len() as int);
        let c = s[i];
        if c == '\\' {
            if i + 1 == s.len() {
                out.push('\\');
                i = i + 1;
                assert(s@.subrange(i as int, s.len() as int) =~= Seq::<char>::empty());
                assert(out@ =~= out@ + Seq::<char>::empty());
            } else {
                let n = s[i + 1];
                let ghost before = out@;
                if n == 's' {
                    out.push(' ');
                } else if n == 'n' {
                    out.push('\n');
                } else if n == 't' {
                    out.push('\t');
                } else if n == '\\' {
                    out.push('\\');
                } else {
                    out.push('\\');
                    out.push(n);
                }
                assert(rest.subrange(2, rest.len() as int) =~= s@.subrange(i + 2, s.len() as int));
                i = i + 2;
                assert(unescaped(s@) =~= out@ + unescaped(s@.subrange(i as int, s.len() as int)));
            }
        } else {
            out.push(c);
            assert(rest.drop_first() =~= s@.subrange(i + 1, s.len() as int));
            i = i + 1;
            assert(unescaped(s@) =~= out@ + unescaped(s@.subrange(i as int, s.len() as int)));
        }
    }
    assert(s@.subrange(s.len() as int, s.len() as int) =~= Seq::<char>::empty());
    assert(out@ + Seq::<char>::empty() =~= out@);
    out
}

/// `str::replace("%%", "%")`.
fn collapse(s: &Vec<char>) -> (r: Vec<char>)
    ensures
        r@ == collapse_percent(s@),
{
    let mut out: Vec<char> = Vec::new();
    let mut i: usize = 0;
    assert(s@.subrange(0, s.len() as int) =~= s@);
    assert(out@ + collapse_percent(s@) =~= collapse_percent(s@));
    while i < s.len()
        invariant
            i <= s.len(),
            collapse_percent(s@) == out@ + collapse_percent(s@.subrange(i as int, s.len() as int)),
        decreases s.len() - i,
    {
        let ghost rest = s@.subrange(i as int, s.len() as int);
        if i + 1 < s.len() && s[i] == '%' && s[i + 1] == '%' {
            out.push('%');
            assert(rest.subrange(2, rest.len() as int) =~= s@.subrange(i + 2, s.len() as int));
            i = i + 2;
            assert(collapse_percent(s@) =~= out@ + collapse_percent(
                s@.subrange(i as int, s.len() as int),
            ));
        } else {
            out.push(s[i]);
            assert(rest.drop_first() =~= s@.subrange(i + 1, s.len() as int));
            i = i + 1;
            assert(collapse_percent(s@) =~= out@ + collapse_percent(
                s@.subrange(i as int, s.len() as int),
            ));
        }
    }
    assert(s@.subrange(s.len() as int, s.len() as int) =~= Seq::<char>::empty());
    assert(out@ + Seq::<char>::empty() =~= out@);
    out
}

fn is_field_code_exec(t: &Vec<char>) -> (r: bool)
    ensures
        r == is_field_code(t@),
{
    if t.len() != 2 || t[0] != '%' {
        return false;
    }
    let c = t[1];
    c == 'f' || c == 'F' || c == 'u' || c == 'U' || c == 'i' || c == 'c' || c == 'k' || c == 'd'
        || c == 'D' || c == 'n' || c == 'N' || c == 'v' || c == 'm' || c == 'w' || c == 'x' || c
        == 'A'
}

/// Removes Exec field codes and re-joins the tokens with single spaces.
fn strip_field_codes(exec: &Vec<char>) -> (r: Vec<char>)
    ensures
        r@ == without_field_codes(exec@),
{
    let tokens = split_words(exec, Sep::Whitespace);
    let ghost tv = char_views(tokens@);
    let mut out: Vec<char> = Vec::new();
    let mut count: usize = 0;
    let mut i: usize = 0;
    assert(tv.take(0) =~= Seq::<Seq<char>>::empty());
    while i < tokens.len()
        invariant
            i <= tokens.len(),
            tv == char_views(tokens@),
            out@ == joined(kept_tokens(tv.take(i as int))),
            count == kept_tokens(tv.take(i as int)).len(),
            count <= i,
        decreases tokens.len() - i,
    {
        let t = &tokens[i];
        let ghost prefix = tv.take(i as int);
        assert(tv.take(i + 1).drop_last() =~= prefix);
        assert(tv.take(i + 1).last() == t@);
        let keep: Option<Vec<char>> = if t.len() > 0 && t[0] == '%' && t.len() == 2 && t[1]
            == '%' {
            let mut p: Vec<char> = Vec::new();
            p.push('%');
            assert(t@ =~= seq!['%', '%']);
            Some(p)
        } else if t.len() > 0 && t[0] == '%' && is_field_code_exec(t) {
            None
        } else {
            proof {
                if t@.len() == 2 && t@[0] == '%' && t@[1] == '%' {
                    assert(t@ =~= seq!['%', '%']);
                }
            }
            Some(collapse(t))
        };
        match keep {
            Some(p) => {
                let ghost kept = kept_tokens(prefix);
                if count > 0 {
                    out.push(' ');
                }
                push_all(&mut out, &p);
                count = count + 1;
                proof {
                    let nk = kept_tokens(tv.take(i + 1));
                    assert(nk == kept.push(p@));
                    assert(nk.drop_last() =~= kept);
                    if kept.len() == 0 {
                        assert(out@ =~= p@);
                    }
                }
            },
            None => {},
        }
        i = i + 1;
    }
    assert(tv.take(tokens.len() as int) =~= tv);
    out
}

/// The trimmed, non-empty items of a `;`-separated list.
fn list_values(value: &Vec<char>) -> (r: Vec<String>)
    ensures
        string_views(r@) == list_items(split_pieces(value@, Sep::Semicolon)),
{
    let pieces = split_chars(value, Sep::Semicolon);
    let ghost pv = char_views(pieces@);
    let mut out: Vec<String> = Vec::new();
    let mut i: usize = 0;
    assert(pv.take(0) =~= Seq::<Seq<char>>::empty());
    while i < pieces.len()
        invariant
            i <= pieces.len(),
            pv == char_views(pieces@),
            string_views(out@) == list_items(pv.take(i as int)),
        decreases pieces.len() - i,
    {
        assert(pv.take(i + 1).drop_last() =~= pv.take(i as int));
        assert(pv.take(i + 1).last() == pieces@[i as int]@);
        let t = trim_chars(&pieces[i]);
        if t.len() > 0 {
            out.push(string_from_chars(&t));
            assert(string_views(out@) =~= list_items(pv.take(i + 1)));
        }
        i = i + 1;
    }
    assert(pv.take(pieces.len() as int) =~= pv);
    out
}

fn first_equals(line: &Vec<char>) -> (r: Option<usize>)
    ensures
        r matches Some(p) ==> first_index_of(line@, '=') == Some(p as int) && p < line.len(),
        r is None ==> first_index_of(line@, '=') is None,
{
    let mut i: usize = 0;
    while i < line.len() && line[i] != '='
        invariant
            i <= line.len(),
            forall|k: int| 0 <= k < i ==> line@[k] != '=',
        decreases line.len() - i,
    {
        i = i + 1;
    }
    proof {
        lemma_first_index_of(line@, '=', i as int);
    }
    if i < line.len() {
        Some(i)
    } else {
        None
    }
}

proof fn lemma_first_index_of(s: Seq<char>, c: char, i: int)
    requires
        0 <= i <= s.len(),
        forall|k: int| 0 <= k < i ==> s[k] != c,
        i < s.len() ==> s[i] == c,
    ensures
        first_index_of(s, c) == if i < s.len() {
            Some(i)
        } else {
            None::<int>
        },
    decreases s.len(),
{
    if s.len() > 0 {
        if i < s.len() - 1 {
            lemma_first_index_of(s.drop_last(), c, i);
        } else {
            lemma_first_index_of(s.drop_last(), c, s.len() - 1);
        }
    }
}

fn string_of(v: &Vec<char>) -> (r: String)
    ensures
        r@ == v@,
{
    string_from_chars(v)
}

/// Applies an `X-OGM-*` key (lowercase) with its trimmed value.
fn apply_ogm_key(m: &mut OgmMeta, key: &Vec<char>, v: &Vec<char>)
    ensures
        final(m)@ == ogm_update(old(m)@, key@, v@),
{
    proof {
        reveal_strlit("true");
    }
    if str_eq_chars("x-ogm-managed", key) {
        let t = chars_of("true");
        m.managed = Some(chars_eq(v, &t));
    } else if str_eq_chars("x-ogm-category", key) {
        let s = string_of(v);
        m.category = Category::from_name(s.as_str());
    } else if str_eq_chars("x-ogm-github", key) {
        m.github = Some(string_of(v));
    } else if str_eq_chars("x-ogm-sgdbquery", key) {
        m.sgdb_query = Some(string_of(v));
    } else if str_eq_chars("x-ogm-weburl", key) {
        m.web_url = Some(string_of(v));
    } else if str_eq_chars("x-ogm-updateurl", key) {
        m.update_url = Some(string_of(v));
    } else if str_eq_chars("x-ogm-updateregex", key) {
        m.update_regex = Some(string_of(v));
    }
}

/// Applies a standard key (trimmed, case-sensitive) with its raw value.
fn apply_standard_key(e: &mut DesktopEntry, key: &Vec<char>, value: &Vec<char>)
    ensures
        final(e)@ == standard_update(old(e)@, key@, value@),
{
    let v = trim_chars(value);
    if str_eq_chars("Name", key) {
        e.name = Some(string_of(&unescape(&v)));
    } else if str_eq_chars("Exec", key) {
        let u = unescape(&v);
        e.exec_line = Some(string_of(&strip_field_codes(&u)));
    } else if str_eq_chars("Icon", key) {
        e.icon = Some(string_of(&v));
    } else if str_eq_chars("Comment", key) {
        e.comment = Some(string_of(&unescape(&v)));
    } else if str_eq_chars("Categories", key) {
        e.categories = list_values(value);
    }
}

/// Parses the `[Desktop Entry]` group of a .desktop file: Name, Exec
/// (unescaped, field codes removed), Icon, Comment, Categories and the
/// `X-OGM-*` keys (case-insensitive). Other groups, comments and unknown
/// keys are ignored.
pub fn parse_desktop(content: &str) -> (r: DesktopEntry)
    ensures
        r@ == parsed_desktop(content@),
{
    let all = chars_of(content);
    let lines = split_chars(&all, Sep::Newline);
    let ghost lv = char_views(lines@);
    let mut entry = DesktopEntry {
        name: None,
        exec_line: None,
        icon: None,
        comment: None,
        categories: Vec::new(),
        ogm: None,
    };
    assert(string_views(entry.categories@) =~= Seq::<Seq<char>>::empty());
    let mut in_desktop_entry = false;
    let mut i: usize = 0;
    assert(lv.take(0) =~= Seq::<Seq<char>>::empty());
    proof {
        reveal_strlit("[Desktop Entry]");
        reveal_strlit("x-ogm-");
    }
    while i < lines.len()
        invariant
            i <= lines.len(),
            lv == char_views(lines@),
            lv == split_pieces(all@, Sep::Newline),
            all@ == content@,
            lines_state(lv.take(i as int)) == (entry@, in_desktop_entry),
        decreases lines.len() - i,
    {
        assert(lv.take(i + 1).drop_last() =~= lv.take(i as int));
        assert(lv.take(i + 1).last() == lines@[i as int]@);
        let line = trim_chars(&lines[i]);
        if line.len() == 0 || line[0] == '#' {
        } else if line[0] == '[' {
            in_desktop_entry = str_eq_chars("[Desktop Entry]", &line);
        } else if in_desktop_entry {
            match first_equals(&line) {
                None => {},
                Some(p) => {
                    let key = sub_vec(&line, 0, p);
                    let value = sub_vec(&line, p + 1, line.len());
                    let tkey = trim_chars(&key);
                    let kl = to_lowercase_chars(&tkey);
                    let prefix = chars_of("x-ogm-");
                    if starts_with_exec(&kl, &prefix) {
                        let mut meta = match entry.ogm {
                            Some(m) => m,
                            None => OgmMeta {
                                managed: None,
                                category: None,
                                github: None,
                                sgdb_query: None,
                                web_url: None,
                                update_url: None,
                                update_regex: None,
                            },
                        };
                        let tv = trim_chars(&value);
                        apply_ogm_key(&mut meta, &kl, &tv);
                        entry.ogm = Some(meta);
                    } else {
                        apply_standard_key(&mut entry, &tkey, &value);
                    }
                },
            }
        }
        i = i + 1;
    }
    assert(lv.take(lines.len() as int) =~= lv);
    entry
}

} // verus!
