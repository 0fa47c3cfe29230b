//! The user's own additions to the game list (`games.json`): custom games
//! and the ids hidden from the menu.

use vstd::prelude::*;

use crate::desktop::string_views;
use crate::model::CustomGame;
use crate::text::{chars_eq, chars_of};

verus! {

/// What `games.json` holds.
#[derive(Clone, Debug, PartialEq)]
pub struct UserGames {
    pub version: u32,
    pub custom: Vec<CustomGame>,
    pub hidden: Vec<String>,
}

impl Default for UserGames {
    /// Version 1, nothing added, nothing hidden.
    fn default() -> (r: UserGames)
        ensures
            r.version == 1,
            r.custom@.len() == 0,
            r.hidden@.len() == 0,
    {
        UserGames { version: 1, custom: Vec::new(), hidden: Vec::new() }
    }
}

/// The hidden list after hiding `id`: appended unless already there.
pub open spec fn hide_list(hidden: Seq<Seq<char>>, id: Seq<char>) -> Seq<Seq<char>> {
    if hidden.contains(id) {
        hidden
    } else {
        hidden.push(id)
    }
}

/// The hidden list after showing `id`: every copy of it removed, the rest
/// in order.
pub open spec fn show_list(hidden: Seq<Seq<char>>, id: Seq<char>) -> Seq<Seq<char>>
    decreases hidden.len(),
{
    if hidden.len() == 0 {
        hidden
    } else {
        let rest = show_list(hidden.drop_last(), id);
        if hidden.last() == id {
            rest
        } else {
            rest.push(hidden.last())
        }
    }
}

/// The distinct entries of `s`, each at its first occurrence.
pub open spec fn distinct_entries(s: Seq<Seq<char>>) -> Seq<Seq<char>>
    decreases s.len(),
{
    if s.len() == 0 {
        s
    } else {
        let rest = distinct_entries(s.drop_last());
        if rest.contains(s.last()) {
            rest
        } else {
            rest.push(s.last())
        }
    }
}

proof fn lemma_contains_split(s: Seq<Seq<char>>, x: Seq<char>)
    requires
        s.len() > 0,
    ensures
        s.contains(x) <==> (s.drop_last().contains(x) || s.last() == x),
{
    if s.contains(x) {
        let i = choose|i: int| 0 <= i < s.len() && s[i] == x;
        if i < s.len() - 1 {
            assert(s.drop_last()[i] == x);
        }
    }
    if s.drop_last().contains(x) {
        let j = choose|j: int| 0 <= j < s.drop_last().len() && s.drop_last()[j] == x;
        assert(s[j] == x);
    }
    if s.last() == x {
        assert(s[s.len() - 1] == x);
    }
}

proof fn lemma_contains_push(s: Seq<Seq<char>>, y: Seq<char>, x: Seq<char>)
    ensures
        s.push(y).contains(x) <==> (s.contains(x) || y == x),
{
    assert(s.push(y).drop_last() =~= s);
    lemma_contains_split(s.push(y), x);
}

proof fn lemma_show_list_members(hidden: Seq<Seq<char>>, id: Seq<char>)
    ensures
        forall|x: Seq<char>| #[trigger] show_list(hidden, id).contains(x) <==> (hidden.contains(x) && x != id),
    decreases hidden.len(),
{
    if hidden.len() > 0 {
        lemma_show_list_members(hidden.drop_last(), id);
        let rest = show_list(hidden.drop_last(), id);
        assert forall|x: Seq<char>| #[trigger] show_list(hidden, id).contains(x) <==> (hidden.contains(x) && x
            != id) by {
            lemma_contains_split(hidden, x);
            lemma_contains_push(rest, hidden.last(), x);
        }
    }
}

proof fn lemma_distinct_entries(s: Seq<Seq<char>>)
    ensures
        forall|x: Seq<char>| #[trigger] distinct_entries(s).contains(x) <==> s.contains(x),
        forall|i: int, j: int|
            0 <= i < j < distinct_entries(s).len() ==> #[trigger] distinct_entries(s)[i]
                != #[trigger] distinct_entries(s)[j],
    decreases s.len(),
{
    if s.len() > 0 {
        lemma_distinct_entries(s.drop_last());
        let rest = distinct_entries(s.drop_last());
        assert forall|x: Seq<char>| #[trigger] distinct_entries(s).contains(x) <==> s.contains(x) by {
            lemma_contains_split(s, x);
            lemma_contains_push(rest, s.last(), x);
        }
        if !rest.contains(s.last()) {
            let d = rest.push(s.last());
            assert forall|i: int, j: int| 0 <= i < j < d.len() implies #[trigger] d[i] != #[trigger] d[j] by {
                if j == d.len() - 1 {
                    assert(rest[i] == d[i]);
                    if d[i] == d[j] {
                        assert(rest.contains(s.last()));
                    }
                } else {
                    assert(rest[i] == d[i] && rest[j] == d[j]);
                }
            }
        }
    }
}

/// Hiding is idempotent: hiding an id twice is hiding it once.
pub proof fn lemma_hide_idempotent(hidden: Seq<Seq<char>>, id: Seq<char>)
    ensures
        hide_list(hide_list(hidden, id), id) == hide_list(hidden, id),
        hide_list(hidden, id).contains(id),
{
    if !hidden.contains(id) {
        assert(hidden.push(id)[hidden.len() as int] == id);
    }
}

/// Showing removes an id entirely, whatever was hidden before, leaves
/// every other id hidden as it was, and undoes hiding it.
pub proof fn lemma_show_removes(hidden: Seq<Seq<char>>, id: Seq<char>, other: Seq<char>)
    ensures
        !show_list(hidden, id).contains(id),
        other != id ==> (show_list(hidden, id).contains(other) <==> hidden.contains(other)),
        show_list(show_list(hidden, id), id) == show_list(hidden, id),
        show_list(hide_list(hidden, id), id) == show_list(hidden, id),
{
    lemma_show_list_members(hidden, id);
    lemma_show_idempotent(hidden, id);
    if !hidden.contains(id) {
        assert(hidden.push(id).drop_last() =~= hidden);
    }
}

proof fn lemma_show_idempotent(hidden: Seq<Seq<char>>, id: Seq<char>)
    ensures
        show_list(show_list(hidden, id), id) == show_list(hidden, id),
    decreases hidden.len(),
{
    if hidden.len() > 0 {
        lemma_show_idempotent(hidden.drop_last(), id);
        let rest = show_list(hidden.drop_last(), id);
        if hidden.last() != id {
            assert(rest.push(hidden.last()).drop_last() =~= rest);
        }
    }
}

fn position_of(hidden: &Vec<String>, id: &Vec<char>) -> (r: Option<usize>)
    ensures
        match r {
            Some(i) => i < hidden@.len() && hidden@[i as int]@ == id@,
            None => !string_views(hidden@).contains(id@),
        },
{
    let mut i: usize = 0;
    while i < hidden.len()
        invariant
            i <= hidden@.len(),
            forall|k: int| 0 <= k < i ==> hidden@[k]@ != id@,
        decreases hidden.len() - i,
    {
        let h = chars_of(hidden[i].as_str());
        if chars_eq(&h, id) {
            return Some(i);
        }
        i = i + 1;
    }
    proof {
        if string_views(hidden@).contains(id@) {
            let k = choose|k: int| 0 <= k < hidden@.len() && string_views(hidden@)[k] == id@;
            assert(hidden@[k]@ == id@);
        }
    }
    None
}

impl UserGames {
    /// The hidden ids without repeats, in order of first appearance.
    pub fn hidden_set(&self) -> (r: Vec<String>)
        ensures
            string_views(r@) == distinct_entries(string_views(self.hidden@)),
            forall|x: Seq<char>| #[trigger] string_views(r@).contains(x) <==> string_views(self.hidden@).contains(x),
            forall|i: int, j: int| 0 <= i < j < r@.len() ==> r@[i]@ != r@[j]@,
    {
        let mut out: Vec<String> = Vec::new();
        let mut i: usize = 0;
        while i < self.hidden.len()
            invariant
                i <= self.hidden@.len(),
                string_views(out@) == distinct_entries(string_views(self.hidden@).subrange(0, i as int)),
            decreases self.hidden.len() - i,
        {
            let h = chars_of(self.hidden[i].as_str());
            let found = position_of(&out, &h);
            let ghost before = out@;
            proof {
                let pre = string_views(self.hidden@).subrange(0, i as int + 1);
                assert(pre.drop_last() =~= string_views(self.hidden@).subrange(0, i as int));
                assert(pre.last() == self.hidden@[i as int]@);
            }
            match found {
                Some(k) => {
                    assert(string_views(out@)[k as int] == h@);
                },
                None => {
                    out.push(self.hidden[i].clone());
                    assert(string_views(out@) =~= string_views(before).push(h@));
                },
            }
            i = i + 1;
        }
        proof {
            assert(string_views(self.hidden@).subrange(0, self.hidden@.len() as int) =~= string_views(
                self.hidden@,
            ));
            lemma_distinct_entries(string_views(self.hidden@));
            assert forall|i: int, j: int| 0 <= i < j < out@.len() implies out@[i]@ != out@[j]@ by {
                assert(string_views(out@)[i] == out@[i]@);
                assert(string_views(out@)[j] == out@[j]@);
            }
        }
        out
    }

    /// Hides `id` (once).
    pub fn hide_id(&mut self, id: &str)
        ensures
            final(self).version == old(self).version,
            final(self).custom == old(self).custom,
            string_views(final(self).hidden@) == hide_list(string_views(old(self).hidden@), id@),
    {
        let v = chars_of(id);
        match position_of(&self.hidden, &v) {
            Some(i) => {
                proof {
                    assert(string_views(self.hidden@)[i as int] == id@);
                }
            },
            None => {
                let ghost before = self.hidden@;
                self.hidden.push(id.to_owned());
                assert(string_views(self.hidden@) =~= string_views(before).push(id@));
            },
        }
    }

    /// Unhides `id` (every copy of it).
    pub fn show(&mut self, id: &str)
        ensures
            final(self).version == old(self).version,
            final(self).custom == old(self).custom,
            string_views(final(self).hidden@) == show_list(string_views(old(self).hidden@), id@),
    {
        let v = chars_of(id);
        let mut kept: Vec<String> = Vec::new();
        let mut i: usize = 0;
        while i < self.hidden.len()
            invariant
                i <= self.hidden@.len(),
                v@ == id@,
                string_views(kept@) == show_list(string_views(self.hidden@).subrange(0, i as int), id@),
            decreases self.hidden.len() - i,
        {
            let h = chars_of(self.hidden[i].as_str());
            let ghost before = kept@;
            proof {
                let pre = string_views(self.hidden@).subrange(0, i as int + 1);
                assert(pre.drop_last() =~= string_views(self.hidden@).subrange(0, i as int));
                assert(pre.last() == self.hidden@[i as int]@);
            }
            if !chars_eq(&h, &v) {
                kept.push(self.hidden[i].clone());
                assert(string_views(kept@) =~= string_views(before).push(h@));
            }
            i = i + 1;
        }
        proof {
            assert(string_views(self.hidden@).subrange(0, self.hidden@.len() as int) =~= string_views(
                self.hidden@,
            ));
        }
        self.hidden = kept;
    }
}

} // verus!
