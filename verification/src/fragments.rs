//! Catalog fragments (`catalog.d/*.toml`): which files are read, in what
//! order, and how their results are gathered.

use vstd::prelude::*;

use crate::catalog::CatalogEntry;
use crate::desktop::string_views;
use crate::sorting::{is_stable_order, stable_order};
use crate::text::{chars_of, ends_with, push_all, string_from_chars};

verus! {

/// A file name whose extension is `toml` (`x.toml`; a bare `.toml` has
/// no extension).
pub open spec fn is_toml_name(name: Seq<char>) -> bool {
    name.len() > 5 && ends_with(name, ".toml"@)
}

/// The names of `names` that are TOML files, in their original order.
pub open spec fn toml_names(names: Seq<Seq<char>>) -> Seq<Seq<char>>
    decreases names.len(),
{
    if names.len() == 0 {
        names
    } else if is_toml_name(names.last()) {
        toml_names(names.drop_last()).push(names.last())
    } else {
        toml_names(names.drop_last())
    }
}

/// `sorted` is `names` sorted by name (stably).
pub open spec fn sorted_names(names: Seq<Seq<char>>, sorted: Seq<Seq<char>>) -> bool {
    exists|p: Seq<int>|
        #[trigger] is_stable_order(names, p) && sorted.len() == names.len() && forall|i: int|
            0 <= i < sorted.len() ==> #[trigger] sorted[i] == names[p[i]]
}

fn is_toml_name_exec(name: &Vec<char>) -> (r: bool)
    ensures
        r == is_toml_name(name@),
{
    let n = name.len();
    if n <= 5 {
        return false;
    }
    let r = name[n - 5] == '.' && name[n - 4] == 't' && name[n - 3] == 'o' && name[n - 2] == 'm'
        && name[n - 1] == 'l';
    proof {
        reveal_strlit(".toml");
        let tail = name@.subrange(n - 5, n as int);
        if r {
            assert(tail =~= ".toml"@);
        } else {
            assert(tail[0] != '.' || tail[1] != 't' || tail[2] != 'o' || tail[3] != 'm' || tail[4] != 'l');
            assert(tail != ".toml"@);
        }
    }
    r
}

/// The TOML files among the entries of a directory, sorted by name: the
/// order in which fragments are merged.
pub fn toml_files(names: &[String]) -> (r: Vec<String>)
    ensures
        sorted_names(toml_names(string_views(names@)), string_views(r@)),
{
    let ghost all = string_views(names@);
    let mut kept: Vec<String> = Vec::new();
    let mut keys: Vec<Vec<char>> = Vec::new();
    let mut i: usize = 0;
    while i < names.len()
        invariant
            i <= names@.len(),
            all == string_views(names@),
            string_views(kept@) == toml_names(all.subrange(0, i as int)),
            crate::text::char_views(keys@) == string_views(kept@),
        decreases names.len() - i,
    {
        let c = chars_of(names[i].as_str());
        proof {
            let pre = all.subrange(0, i as int + 1);
            assert(pre.drop_last() =~= all.subrange(0, i as int));
            assert(pre.last() == names@[i as int]@);
        }
        if is_toml_name_exec(&c) {
            let ghost kb = kept@;
            let ghost cb = keys@;
            kept.push(names[i].clone());
            keys.push(c);
            assert(string_views(kept@) =~= string_views(kb).push(names@[i as int]@));
            assert(crate::text::char_views(keys@) =~= crate::text::char_views(cb).push(names@[i as int]@));
        }
        i = i + 1;
    }
    assert(all.subrange(0, names@.len() as int) =~= all);
    let order = stable_order(&keys);
    let ghost p = order@.map_values(|x: usize| x as int);
    let ghost f = string_views(kept@);
    let mut out: Vec<String> = Vec::new();
    let mut k: usize = 0;
    while k < order.len()
        invariant
            k <= order@.len() == kept@.len(),
            f == string_views(kept@),
            is_stable_order(f, p),
            p == order@.map_values(|x: usize| x as int),
            out@.len() == k,
            forall|a: int| 0 <= a < k ==> (#[trigger] out@[a])@ == f[p[a]],
        decreases order.len() - k,
    {
        assert(p[k as int] == order@[k as int] as int);
        out.push(kept[order[k]].clone());
        k = k + 1;
    }
    proof {
        let sv = string_views(out@);
        assert forall|a: int| 0 <= a < sv.len() implies #[trigger] sv[a] == f[p[a]] by {
            assert(sv[a] == out@[a]@);
        }
        assert(is_stable_order(f, p));
    }
    out
}

/// What came of the catalog fragment files that were read.
#[derive(Clone, Debug, Default, PartialEq)]
pub struct CatalogFragments {
    /// Entries in load order (dir order, then filename order within a dir).
    pub entries: Vec<CatalogEntry>,
    /// Successfully parsed files with their entry counts, in load order.
    pub files: Vec<(String, usize)>,
    /// Human-readable warnings for files that failed to parse.
    pub warnings: Vec<String>,
}

/// The warning for a fragment file that did not parse.
pub open spec fn fragment_warning(path: Seq<char>) -> Seq<char> {
    "catalog fragment "@ + path + " failed to parse"@
}

/// The entries of the files that parsed, in order.
pub open spec fn fragment_entries(rs: Seq<(String, Option<Vec<CatalogEntry>>)>) -> Seq<CatalogEntry>
    decreases rs.len(),
{
    if rs.len() == 0 {
        Seq::empty()
    } else {
        fragment_entries(rs.drop_last()) + match rs.last().1 {
            Some(es) => es@,
            None => Seq::empty(),
        }
    }
}

/// Each file that parsed with its number of entries, in order.
pub open spec fn fragment_files(rs: Seq<(String, Option<Vec<CatalogEntry>>)>) -> Seq<(Seq<char>, nat)>
    decreases rs.len(),
{
    if rs.len() == 0 {
        Seq::empty()
    } else {
        match rs.last().1 {
            Some(es) => fragment_files(rs.drop_last()).push((rs.last().0@, es@.len())),
            None => fragment_files(rs.drop_last()),
        }
    }
}

/// A warning for each file that did not parse, in order.
pub open spec fn fragment_warnings(rs: Seq<(String, Option<Vec<CatalogEntry>>)>) -> Seq<Seq<char>>
    decreases rs.len(),
{
    if rs.len() == 0 {
        Seq::empty()
    } else {
        match rs.last().1 {
            Some(_) => fragment_warnings(rs.drop_last()),
            None => fragment_warnings(rs.drop_last()).push(fragment_warning(rs.last().0@)),
        }
    }
}

/// The (path, count) pairs of a file list.
pub open spec fn file_views(v: Seq<(String, usize)>) -> Seq<(Seq<char>, nat)> {
    v.map_values(|f: (String, usize)| (f.0@, f.1 as nat))
}

fn warning_for(path: &String) -> (r: String)
    ensures
        r@ == fragment_warning(path@),
{
    let mut out = chars_of("catalog fragment ");
    let p = chars_of(path.as_str());
    push_all(&mut out, &p);
    let tail = chars_of(" failed to parse");
    push_all(&mut out, &tail);
    string_from_chars(&out)
}

/// Gathers the results of reading the fragment files in load order: each
/// file's path with its parsed entries, or `None` when it did not parse.
pub fn collect_fragments(results: &[(String, Option<Vec<CatalogEntry>>)]) -> (r: CatalogFragments)
    ensures
        r.entries@ == fragment_entries(results@),
        file_views(r.files@) == fragment_files(results@),
        string_views(r.warnings@) == fragment_warnings(results@),
{
    let mut entries: Vec<CatalogEntry> = Vec::new();
    let mut files: Vec<(String, usize)> = Vec::new();
    let mut warnings: Vec<String> = Vec::new();
    let mut i: usize = 0;
    while i < results.len()
        invariant
            i <= results@.len(),
            entries@ == fragment_entries(results@.subrange(0, i as int)),
            file_views(files@) == fragment_files(results@.subrange(0, i as int)),
            string_views(warnings@) == fragment_warnings(results@.subrange(0, i as int)),
        decreases results.len() - i,
    {
        let ghost pre = results@.subrange(0, i as int + 1);
        proof {
            assert(pre.drop_last() =~= results@.subrange(0, i as int));
            assert(pre.last() == results@[i as int]);
        }
        let (path, parsed) = &results[i];
        match parsed {
            Some(es) => {
                let ghost eb = entries@;
                let ghost fb = files@;
                files.push((path.clone(), es.len()));
                assert(file_views(files@) =~= file_views(fb).push((path@, es@.len())));
                let mut k: usize = 0;
                while k < es.len()
                    invariant
                        k <= es@.len(),
                        entries@ == eb + es@.subrange(0, k as int),
                    decreases es.len() - k,
                {
                    entries.push(es[k].duplicate());
                    assert(entries@ =~= eb + es@.subrange(0, k as int + 1));
                    k = k + 1;
                }
                assert(es@.subrange(0, es@.len() as int) =~= es@);
            },
            None => {
                let ghost wb = warnings@;
                let w = warning_for(path);
                warnings.push(w);
                assert(string_views(warnings@) =~= string_views(wb).push(fragment_warning(path@)));
            },
        }
        i = i + 1;
    }
    assert(results@.subrange(0, results@.len() as int) =~= results@);
    CatalogFragments { entries, files, warnings }
}

} // verus!
