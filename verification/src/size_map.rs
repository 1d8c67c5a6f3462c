//! The title-keyed map of sizing records that a conversion run produces.
//!
//! The map is a vector of entries with pairwise distinct titles, viewed as a
//! `Map<Seq<char>, Image>`; inserting an already present title overwrites
//! its record, so duplicate base names resolve to last-write-wins.

use vstd::prelude::*;

use crate::utils::{char_code, Image, Title};

verus! {

/// The map folded from an entry list, later entries overwriting earlier
/// ones.
pub open spec fn entries_map(es: Seq<(Title, Image)>) -> Map<Seq<char>, Image>
    decreases es.len(),
{
    if es.len() == 0 {
        Map::empty()
    } else {
        entries_map(es.drop_last()).insert(es.last().0@, es.last().1)
    }
}

/// A key is in the folded map exactly when some entry bears it.
proof fn lemma_entries_map_contains(es: Seq<(Title, Image)>, k: Seq<char>)
    ensures
        entries_map(es).contains_key(k) <==> exists|i: int|
            0 <= i < es.len() && (#[trigger] es[i]).0@ == k,
    decreases es.len(),
{
    if es.len() > 0 {
        lemma_entries_map_contains(es.drop_last(), k);
        if es.last().0@ == k {
            assert(es[es.len() - 1].0@ == k);
        } else if entries_map(es).contains_key(k) {
            let i = choose|i: int| 0 <= i < es.len() - 1 && (#[trigger] es.drop_last()[i]).0@ == k;
            assert(es[i].0@ == k);
        } else {
            assert forall|i: int| 0 <= i < es.len() implies (#[trigger] es[i]).0@ != k by {
                if i < es.len() - 1 {
                    assert(es.drop_last()[i] == es[i]);
                }
            }
        }
    }
}

/// An entry whose title no later entry repeats decides the key's record.
proof fn lemma_entries_map_value(es: Seq<(Title, Image)>, i: int)
    requires
        0 <= i < es.len(),
        forall|j: int| i < j < es.len() ==> (#[trigger] es[j]).0@ != es[i].0@,
    ensures
        entries_map(es).contains_key(es[i].0@),
        entries_map(es)[es[i].0@] == es[i].1,
    decreases es.len(),
{
    if i == es.len() - 1 {
    } else {
        assert(es.drop_last()[i] == es[i]);
        assert forall|j: int| i < j < es.len() - 1 implies (#[trigger] es.drop_last()[j]).0@
            != es.drop_last()[i].0@ by {
            assert(es.drop_last()[j] == es[j]);
        }
        lemma_entries_map_value(es.drop_last(), i);
        assert(es[es.len() - 1].0@ != es[i].0@);
    }
}

/// With pairwise distinct titles, the folded map has one key per entry.
proof fn lemma_entries_map_len(es: Seq<(Title, Image)>)
    requires
        forall|i: int, j: int|
            0 <= i < j < es.len() ==> (#[trigger] es[i]).0@ != (#[trigger] es[j]).0@,
    ensures
        entries_map(es).dom().finite(),
        entries_map(es).dom().len() == es.len(),
    decreases es.len(),
{
    if es.len() > 0 {
        let dl = es.drop_last();
        assert forall|i: int, j: int| 0 <= i < j < dl.len() implies (#[trigger] dl[i]).0@
            != (#[trigger] dl[j]).0@ by {
            assert(dl[i] == es[i]);
            assert(dl[j] == es[j]);
        }
        lemma_entries_map_len(dl);
        lemma_entries_map_contains(dl, es.last().0@);
        assert forall|i: int| 0 <= i < dl.len() implies (#[trigger] dl[i]).0@ != es.last().0@ by {
            assert(dl[i] == es[i]);
            assert(es[es.len() - 1].0@ == es.last().0@);
        }
        assert(!entries_map(dl).contains_key(es.last().0@));
    }
}

/// Character-wise string equality; two strings are equal exactly when their
/// character sequences are.
pub(crate) fn str_eq(a: &str, b: &str) -> (r: bool)
    ensures
        r == (a@ == b@),
{
    let n = a.unicode_len();
    let m = b.unicode_len();
    if n != m {
        return false;
    }
    let mut i: usize = 0;
    while i < n
        invariant
            i <= n,
            n == a@.len(),
            n == b@.len(),
            forall|k: int| 0 <= k < i ==> a@[k] == b@[k],
        decreases n - i,
    {
        let ca = a.get_char(i);
        let cb = b.get_char(i);
        if char_code(ca) != char_code(cb) {
            proof {
                assert(a@[i as int] != b@[i as int]);
            }
            return false;
        }
        proof {
            assert(ca as int == cb as int);
            assert(a@[i as int] as int == b@[i as int] as int);
        }
        i += 1;
    }
    proof {
        assert(a@ =~= b@);
    }
    true
}

/// The map from image titles to their four-way sizing records.
#[derive(Debug)]
pub struct SizeMap {
    entries: Vec<(Title, Image)>,
}

impl View for SizeMap {
    type V = Map<Seq<char>, Image>;

    closed spec fn view(&self) -> Map<Seq<char>, Image> {
        entries_map(self.entries@)
    }
}

impl SizeMap {
    /// The entry list behind the map, oldest insertion first.
    pub closed spec fn entries_seq(self) -> Seq<(Title, Image)> {
        self.entries@
    }

    /// Titles are pairwise distinct.
    pub closed spec fn wf(self) -> bool {
        forall|i: int, j: int|
            0 <= i < j < self.entries@.len() ==> (#[trigger] self.entries@[i]).0@
                != (#[trigger] self.entries@[j]).0@
    }

    pub fn new() -> (m: SizeMap)
        ensures
            m@ == Map::<Seq<char>, Image>::empty(),
            m.wf(),
            m.entries_seq() == Seq::<(Title, Image)>::empty(),
    {
        SizeMap { entries: Vec::new() }
    }

    /// Record a title's sizing, overwriting any record the title already
    /// has.
    pub fn insert(&mut self, title: Title, image: Image)
        requires
            old(self).wf(),
        ensures
            final(self).wf(),
            final(self)@ == old(self)@.insert(title@, image),
    {
        let mut i: usize = 0;
        while i < self.entries.len()
            invariant
                i <= self.entries@.len(),
                self == old(self),
                self.wf(),
                forall|k: int| 0 <= k < i ==> (#[trigger] self.entries@[k]).0@ != title@,
            decreases self.entries@.len() - i,
        {
            if str_eq(self.entries[i].0.as_str(), title.as_str()) {
                proof {
                    assert forall|j: int|
                        0 <= j < self.entries@.len() && j != i implies (#[trigger] self
                        .entries@[j]).0@ != title@ by {
                        if j > i {
                            assert(self.entries@[i as int].0@ != self.entries@[j].0@);
                        }
                    }
                    lemma_entries_map_update(self.entries@, i as int, (title, image));
                }
                let ghost es0 = self.entries@;
                self.entries.set(i, (title, image));
                proof {
                    assert forall|p: int, q: int|
                        0 <= p < q < self.entries@.len() implies (#[trigger] self
                        .entries@[p]).0@ != (#[trigger] self.entries@[q]).0@ by {
                        if p != i && q != i {
                            assert(es0[p].0@ != es0[q].0@);
                        } else if p == i {
                            assert(es0[q].0@ != title@);
                        } else {
                            assert(es0[p].0@ != title@);
                        }
                    }
                }
                return;
            }
            i += 1;
        }
        proof {
            assert(self.entries@.push((title, image)).drop_last() =~= self.entries@);
        }
        self.entries.push((title, image));
    }

    /// Look a title up; the result is its record exactly when the title is
    /// a key of the map.
    pub fn get(&self, title: &str) -> (r: Option<Image>)
        requires
            self.wf(),
        ensures
            match r {
                Some(img) => self@.contains_key(title@) && img == self@[title@],
                None => !self@.contains_key(title@),
            },
    {
        let mut i: usize = 0;
        while i < self.entries.len()
            invariant
                self.wf(),
                i <= self.entries@.len(),
                forall|k: int| 0 <= k < i ==> (#[trigger] self.entries@[k]).0@ != title@,
            decreases self.entries@.len() - i,
        {
            if str_eq(self.entries[i].0.as_str(), title) {
                let img = self.entries[i].1;
                proof {
                    lemma_entries_map_value(self.entries@, i as int);
                }
                return Some(img);
            }
            i += 1;
        }
        proof {
            lemma_entries_map_contains(self.entries@, title@);
        }
        None
    }

    /// How many titles the map holds.
    pub fn len(&self) -> (n: usize)
        requires
            self.wf(),
        ensures
            n == self.entries_seq().len(),
            n == self@.dom().len(),
    {
        proof {
            lemma_entries_map_len(self.entries@);
        }
        self.entries.len()
    }

    /// The entries as a plain list, for callers that serialize the map.
    pub fn entries(&self) -> (r: &Vec<(Title, Image)>)
        ensures
            r@ == self.entries_seq(),
    {
        &self.entries
    }
}

/// Overwriting the one entry that bears a title folds to a plain map
/// insertion.
proof fn lemma_entries_map_update(es: Seq<(Title, Image)>, i: int, e: (Title, Image))
    requires
        0 <= i < es.len(),
        es[i].0@ == e.0@,
        forall|j: int| 0 <= j < es.len() && j != i ==> (#[trigger] es[j]).0@ != e.0@,
    ensures
        entries_map(es.update(i, e)) == entries_map(es).insert(e.0@, e.1),
    decreases es.len(),
{
    let u = es.update(i, e);
    if i == es.len() - 1 {
        assert(u.drop_last() =~= es.drop_last());
        assert(u.last() == e);
        assert(entries_map(es.drop_last()).insert(es.last().0@, es.last().1).insert(e.0@, e.1)
            =~= entries_map(es.drop_last()).insert(e.0@, e.1));
    } else {
        assert(u.drop_last() =~= es.drop_last().update(i, e));
        assert(u.last() == es.last());
        let dl = es.drop_last();
        assert(dl[i] == es[i]);
        assert forall|j: int| 0 <= j < dl.len() && j != i implies (#[trigger] dl[j]).0@ != e.0@ by {
            assert(dl[j] == es[j]);
        }
        lemma_entries_map_update(dl, i, e);
        assert(es.last().0@ != e.0@);
        assert(entries_map(dl).insert(e.0@, e.1).insert(es.last().0@, es.last().1)
            =~= entries_map(dl).insert(es.last().0@, es.last().1).insert(e.0@, e.1));
    }
}

} // verus!
