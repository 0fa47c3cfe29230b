//! Curated catalog entries and the merging of catalog sources.

use vstd::prelude::*;

use crate::model::{clone_opt, opt_str, Category};

verus! {

/// One game of the curated catalog (bundled or from a fragment file).
#[derive(Clone, Debug, PartialEq)]
pub struct CatalogEntry {
    pub id: String,
    pub desktop_id: Option<String>,
    pub name: Option<String>,
    pub category: Category,
    pub github: Option<String>,
    pub sgdb_query: Option<String>,
    pub web_url: Option<String>,
    pub update_url: Option<String>,
    pub update_regex: Option<String>,
    pub version_file: Option<String>,
    pub hidden_default: bool,
}

impl CatalogEntry {
    /// A copy.
    pub fn duplicate(&self) -> (r: CatalogEntry)
        ensures
            r == *self,
    {
        CatalogEntry {
            id: self.id.clone(),
            desktop_id: clone_opt(&self.desktop_id),
            name: clone_opt(&self.name),
            category: self.category,
            github: clone_opt(&self.github),
            sgdb_query: clone_opt(&self.sgdb_query),
            web_url: clone_opt(&self.web_url),
            update_url: clone_opt(&self.update_url),
            update_regex: clone_opt(&self.update_regex),
            version_file: clone_opt(&self.version_file),
            hidden_default: self.hidden_default,
        }
    }
}

/// `o` replaces `e` when `o` names a desktop id and `e` has the same one,
/// or, for custom-style entries (neither has a desktop id), when their ids
/// are equal.
pub open spec fn replaces(e: CatalogEntry, o: CatalogEntry) -> bool {
    match o.desktop_id {
        Some(d) => opt_str(e.desktop_id) == Some(d@),
        None => e.desktop_id is None && e.id@ == o.id@,
    }
}

/// Index of the first entry of `s` that `o` replaces.
pub open spec fn first_replaced(s: Seq<CatalogEntry>, o: CatalogEntry) -> Option<int>
    decreases s.len(),
{
    if s.len() == 0 {
        None
    } else {
        match first_replaced(s.drop_last(), o) {
            Some(i) => Some(i),
            None => if replaces(s.last(), o) {
                Some(s.len() - 1)
            } else {
                None
            },
        }
    }
}

/// `s` with `o` merged in: it takes the place of the first entry it
/// replaces, or goes at the end.
pub open spec fn merge_one(s: Seq<CatalogEntry>, o: CatalogEntry) -> Seq<CatalogEntry> {
    match first_replaced(s, o) {
        Some(i) => s.update(i, o),
        None => s.push(o),
    }
}

/// `base` with each entry of `overlay` merged in, in order.
pub open spec fn merged(base: Seq<CatalogEntry>, overlay: Seq<CatalogEntry>) -> Seq<CatalogEntry>
    decreases overlay.len(),
{
    if overlay.len() == 0 {
        base
    } else {
        merge_one(merged(base, overlay.drop_last()), overlay.last())
    }
}

proof fn lemma_first_replaced(s: Seq<CatalogEntry>, o: CatalogEntry)
    ensures
        first_replaced(s, o) matches Some(i) ==> 0 <= i < s.len() && replaces(s[i], o) && forall|
            k: int,
        | 0 <= k < i ==> !replaces(#[trigger] s[k], o),
        first_replaced(s, o) is None ==> forall|k: int| 0 <= k < s.len() ==> !replaces(#[trigger] s[k], o),
    decreases s.len(),
{
    if s.len() > 0 {
        lemma_first_replaced(s.drop_last(), o);
        assert forall|k: int| 0 <= k < s.len() - 1 implies s[k] == s.drop_last()[k] by {}
    }
}

proof fn lemma_first_replaced_is(s: Seq<CatalogEntry>, o: CatalogEntry, i: int)
    requires
        0 <= i <= s.len(),
        forall|k: int| 0 <= k < i ==> !replaces(#[trigger] s[k], o),
        i < s.len() ==> replaces(s[i], o),
    ensures
        first_replaced(s, o) == if i < s.len() {
            Some(i)
        } else {
            None::<int>
        },
    decreases s.len(),
{
    lemma_first_replaced(s, o);
    if first_replaced(s, o) is Some {
        let j = first_replaced(s, o)->0;
        assert(j == i);
    }
}

/// Whether `o` replaces `e` when merged.
fn replaces_exec(e: &CatalogEntry, o: &CatalogEntry) -> (r: bool)
    ensures
        r == replaces(*e, *o),
{
    match (&o.desktop_id, &e.desktop_id) {
        (Some(a), Some(b)) => *a == *b,
        (None, None) => e.id == o.id,
        _ => false,
    }
}

/// Merge catalog sources in priority order: earlier sources win position,
/// later sources win content. An entry from `overlay` replaces an entry
/// from `base` when their `desktop_id` matches, or (for custom-style
/// entries without a desktop file) when their `id` matches.
pub fn merge_catalog_entries(base: &[CatalogEntry], overlay: &[CatalogEntry]) -> (r: Vec<
    CatalogEntry,
>)
    ensures
        r@ == merged(base@, overlay@),
{
    let mut out: Vec<CatalogEntry> = Vec::new();
    let mut i: usize = 0;
    while i < base.len()
        invariant
            i <= base.len(),
            out@ == base@.take(i as int),
        decreases base.len() - i,
    {
        out.push(base[i].duplicate());
        i = i + 1;
        assert(out@ =~= base@.take(i as int));
    }
    assert(base@.take(base.len() as int) =~= base@);
    let mut j: usize = 0;
    assert(overlay@.take(0) =~= Seq::<CatalogEntry>::empty());
    while j < overlay.len()
        invariant
            j <= overlay.len(),
            out@ == merged(base@, overlay@.take(j as int)),
        decreases overlay.len() - j,
    {
        let entry = &overlay[j];
        let mut k: usize = 0;
        while k < out.len() && !replaces_exec(&out[k], entry)
            invariant
                k <= out.len(),
                forall|x: int| 0 <= x < k ==> !replaces(#[trigger] out@[x], *entry),
            decreases out.len() - k,
        {
            k = k + 1;
        }
        proof {
            lemma_first_replaced_is(out@, *entry, k as int);
            let t = overlay@.take(j + 1);
            assert(t.drop_last() =~= overlay@.take(j as int));
            assert(t.last() == *entry);
        }
        if k < out.len() {
            out.set(k, entry.duplicate());
        } else {
            out.push(entry.duplicate());
        }
        j = j + 1;
    }
    assert(overlay@.take(overlay.len() as int) =~= overlay@);
    out
}

/// Merging two overlays one after the other is merging their
/// concatenation: sequential catalog fragments compose deterministically.
pub proof fn lemma_merge_sequential(
    base: Seq<CatalogEntry>,
    first: Seq<CatalogEntry>,
    second: Seq<CatalogEntry>,
)
    ensures
        merged(merged(base, first), second) == merged(base, first + second),
    decreases second.len(),
{
    if second.len() == 0 {
        assert(first + second =~= first);
    } else {
        lemma_merge_sequential(base, first, second.drop_last());
        assert((first + second).drop_last() =~= first + second.drop_last());
        assert((first + second).last() == second.last());
    }
}

proof fn lemma_merge_one_shape(s: Seq<CatalogEntry>, o: CatalogEntry)
    ensures
        merge_one(s, o).len() == s.len() || merge_one(s, o).len() == s.len() + 1,
        merge_one(s, o).contains(o),
        forall|k: int|
            0 <= k < s.len() ==> #[trigger] merge_one(s, o)[k] == s[k] || merge_one(s, o)[k] == o,
        forall|k: int|
            s.len() <= k < merge_one(s, o).len() ==> #[trigger] merge_one(s, o)[k] == o,
{
    lemma_first_replaced(s, o);
    match first_replaced(s, o) {
        Some(i) => assert(merge_one(s, o)[i] == o),
        None => assert(merge_one(s, o)[s.len() as int] == o),
    }
}

/// Base entries keep their positions: the result starts with as many
/// entries as `base` has, each either the base entry at that position or
/// an overlay entry that replaced it; everything after them comes from the
/// overlay; and every overlay entry that was merged last is present.
pub proof fn lemma_merge_positions(base: Seq<CatalogEntry>, overlay: Seq<CatalogEntry>)
    ensures
        base.len() <= merged(base, overlay).len() <= base.len() + overlay.len(),
        forall|k: int|
            0 <= k < base.len() ==> #[trigger] merged(base, overlay)[k] == base[k] || overlay.contains(
                merged(base, overlay)[k],
            ),
        forall|k: int|
            base.len() <= k < merged(base, overlay).len() ==> overlay.contains(
                #[trigger] merged(base, overlay)[k],
            ),
        overlay.len() > 0 ==> merged(base, overlay).contains(overlay.last()),
    decreases overlay.len(),
{
    if overlay.len() > 0 {
        let prev = merged(base, overlay.drop_last());
        let o = overlay.last();
        lemma_merge_positions(base, overlay.drop_last());
        lemma_merge_one_shape(prev, o);
        let m = merged(base, overlay);
        assert(m == merge_one(prev, o));
        assert forall|k: int| 0 <= k < base.len() implies #[trigger] m[k] == base[k]
            || overlay.contains(m[k]) by {
            if m[k] == o {
                assert(overlay[overlay.len() - 1] == o);
            } else {
                assert(m[k] == prev[k]);
                if prev[k] != base[k] {
                    let x = choose|x: int| 0 <= x < overlay.drop_last().len() && overlay.drop_last()[x] == prev[k];
                    assert(overlay[x] == prev[k]);
                }
            }
        }
        assert forall|k: int| base.len() <= k < m.len() implies overlay.contains(#[trigger] m[k]) by {
            if m[k] == o {
                assert(overlay[overlay.len() - 1] == o);
            } else {
                assert(k < prev.len());
                assert(m[k] == prev[k]);
                let x = choose|x: int| 0 <= x < overlay.drop_last().len() && overlay.drop_last()[x] == prev[k];
                assert(overlay[x] == prev[k]);
            }
        }
    }
}

/// The values a `CatalogEntry` holds.
pub ghost struct CatalogEntryV {
    pub id: Seq<char>,
    pub desktop_id: Option<Seq<char>>,
    pub name: Option<Seq<char>>,
    pub category: Category,
    pub github: Option<Seq<char>>,
    pub sgdb_query: Option<Seq<char>>,
    pub web_url: Option<Seq<char>>,
    pub update_url: Option<Seq<char>>,
    pub update_regex: Option<Seq<char>>,
    pub version_file: Option<Seq<char>>,
    pub hidden_default: bool,
}

impl View for CatalogEntry {
    type V = CatalogEntryV;

    open spec fn view(&self) -> CatalogEntryV {
        CatalogEntryV {
            id: self.id@,
            desktop_id: opt_str(self.desktop_id),
            name: opt_str(self.name),
            category: self.category,
            github: opt_str(self.github),
            sgdb_query: opt_str(self.sgdb_query),
            web_url: opt_str(self.web_url),
            update_url: opt_str(self.update_url),
            update_regex: opt_str(self.update_regex),
            version_file: opt_str(self.version_file),
            hidden_default: self.hidden_default,
        }
    }
}

/// The values held by a sequence of catalog entries.
pub open spec fn entry_views(s: Seq<CatalogEntry>) -> Seq<CatalogEntryV> {
    s.map_values(|e: CatalogEntry| e@)
}

} // verus!
