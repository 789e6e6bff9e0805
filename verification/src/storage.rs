//! A model of the files resident under the storage root: named byte blobs,
//! identified by a single-segment filename, overwritten whole on re-upload.
//!
//! The model is a flat association of names to contents, viewed as a
//! `Map<Seq<char>, Seq<u8>>`. Its invariant carries the traversal-safety
//! rule: every stored name is a valid single path segment.

use vstd::prelude::*;
use vstd::string::StringExecFns;

use crate::path_check::valid_segment;

verus! {

/// The map described by a sequence of name/content entries; later entries
/// take precedence, though the storage invariant keeps names unique.
spec fn map_of(s: Seq<(String, Vec<u8>)>) -> Map<Seq<char>, Seq<u8>>
    decreases s.len(),
{
    if s.len() == 0 {
        Map::empty()
    } else {
        map_of(s.drop_last()).insert(s.last().0@, s.last().1@)
    }
}

spec fn unique_names(s: Seq<(String, Vec<u8>)>) -> bool {
    forall|i: int, j: int| 0 <= i < j < s.len() ==> s[i].0@ != s[j].0@
}

spec fn names_valid(s: Seq<(String, Vec<u8>)>) -> bool {
    forall|i: int| 0 <= i < s.len() ==> valid_segment(s[i].0@)
}

proof fn lemma_map_of_contains(s: Seq<(String, Vec<u8>)>, k: Seq<char>)
    ensures
        map_of(s).dom().contains(k) <==> exists|i: int| 0 <= i < s.len() && s[i].0@ == k,
    decreases s.len(),
{
    if s.len() > 0 {
        lemma_map_of_contains(s.drop_last(), k);
        if s.last().0@ == k {
            assert(s[s.len() - 1].0@ == k);
        } else {
            if exists|i: int| 0 <= i < s.len() && s[i].0@ == k {
                let i = choose|i: int| 0 <= i < s.len() && s[i].0@ == k;
                assert(s.drop_last()[i].0@ == k);
            }
            if exists|i: int| 0 <= i < s.drop_last().len() && s.drop_last()[i].0@ == k {
                let i = choose|i: int| 0 <= i < s.drop_last().len() && s.drop_last()[i].0@ == k;
                assert(s[i].0@ == k);
            }
        }
    }
}

proof fn lemma_unique_prefix(s: Seq<(String, Vec<u8>)>)
    requires
        s.len() > 0,
        unique_names(s),
        names_valid(s),
    ensures
        unique_names(s.drop_last()),
        names_valid(s.drop_last()),
{
    assert forall|i: int, j: int|
        0 <= i < j < s.drop_last().len() implies s.drop_last()[i].0@ != s.drop_last()[j].0@ by {
        assert(s.drop_last()[i] == s[i]);
        assert(s.drop_last()[j] == s[j]);
    }
    assert forall|i: int| 0 <= i < s.drop_last().len() implies valid_segment(
        s.drop_last()[i].0@,
    ) by {
        assert(s.drop_last()[i] == s[i]);
    }
}

proof fn lemma_map_of_index(s: Seq<(String, Vec<u8>)>, i: int)
    requires
        unique_names(s),
        names_valid(s),
        0 <= i < s.len(),
    ensures
        map_of(s).dom().contains(s[i].0@),
        map_of(s)[s[i].0@] == s[i].1@,
    decreases s.len(),
{
    if i == s.len() - 1 {
        assert(s.last() == s[i]);
    } else {
        lemma_unique_prefix(s);
        lemma_map_of_index(s.drop_last(), i);
        assert(s.drop_last()[i] == s[i]);
        assert(s.last().0@ != s[i].0@);
    }
}

proof fn lemma_map_of_remove(s: Seq<(String, Vec<u8>)>, i: int)
    requires
        unique_names(s),
        names_valid(s),
        0 <= i < s.len(),
    ensures
        map_of(s.remove(i)) == map_of(s).remove(s[i].0@),
    decreases s.len(),
{
    s.remove_ensures(i);
    if i == s.len() - 1 {
        assert(s.remove(i) =~= s.drop_last());
        lemma_unique_prefix(s);
        lemma_map_of_contains(s.drop_last(), s[i].0@);
        assert forall|j: int| 0 <= j < s.drop_last().len() implies s.drop_last()[j].0@
            != s[i].0@ by {
            assert(s.drop_last()[j] == s[j]);
        }
        assert(!map_of(s.drop_last()).dom().contains(s[i].0@));
        assert(map_of(s.remove(i)) =~= map_of(s).remove(s[i].0@));
    } else {
        let t = s.remove(i);
        assert(t.last() == s[t.len() - 1 + 1]);
        assert(t.last() == s.last());
        assert(t.drop_last() =~= s.drop_last().remove(i)) by {
            s.drop_last().remove_ensures(i);
            assert forall|j: int| 0 <= j < t.drop_last().len() implies t.drop_last()[j]
                == s.drop_last().remove(i)[j] by {
                if j < i {
                    assert(t[j] == s[j]);
                    assert(s.drop_last()[j] == s[j]);
                } else {
                    assert(t[j] == s[j + 1]);
                    assert(s.drop_last()[j + 1] == s[j + 1]);
                }
            }
        }
        lemma_unique_prefix(s);
        lemma_map_of_remove(s.drop_last(), i);
        assert(s.drop_last()[i] == s[i]);
        assert(s.last().0@ != s[i].0@);
        assert(map_of(t) == map_of(s.drop_last()).remove(s[i].0@).insert(
            s.last().0@,
            s.last().1@,
        ));
        assert(map_of(s.remove(i)) =~= map_of(s).remove(s[i].0@));
    }
}

/// The files currently stored under the storage root, modelled as a flat
/// name-to-contents association.
pub struct StorageModel {
    entries: Vec<(String, Vec<u8>)>,
}

impl View for StorageModel {
    type V = Map<Seq<char>, Seq<u8>>;

    closed spec fn view(&self) -> Map<Seq<char>, Seq<u8>> {
        map_of(self.entries@)
    }
}

impl StorageModel {
    /// Well-formed storage: names are unique and each one is a valid single
    /// path segment.
    pub closed spec fn wf(&self) -> bool {
        unique_names(self.entries@) && names_valid(self.entries@)
    }

    /// An empty storage root.
    pub fn new() -> (s: Self)
        ensures
            s.wf(),
            s@ == Map::<Seq<char>, Seq<u8>>::empty(),
    {
        StorageModel { entries: Vec::new() }
    }

    /// Law (storage invariant): every stored name is a valid single segment,
    /// so every stored file resolves strictly inside the storage root.
    pub proof fn lemma_stored_names_are_valid(&self, k: Seq<char>)
        requires
            self.wf(),
            self@.dom().contains(k),
        ensures
            valid_segment(k),
    {
        lemma_map_of_contains(self.entries@, k);
        let i = choose|i: int| 0 <= i < self.entries@.len() && self.entries@[i].0@ == k;
        assert(valid_segment(self.entries@[i].0@));
    }

    /// Index of the entry carrying `name`, if one is stored.
    fn find(&self, name: &String) -> (r: Option<usize>)
        ensures
            match r {
                Some(i) => i < self.entries@.len() && self.entries@[i as int].0@ == name@,
                None => forall|j: int|
                    0 <= j < self.entries@.len() ==> self.entries@[j].0@ != name@,
            },
    {
        let mut i: usize = 0;
        while i < self.entries.len()
            invariant
                i <= self.entries@.len(),
                forall|j: int| 0 <= j < i ==> self.entries@[j].0@ != name@,
            decreases self.entries@.len() - i,
        {
            if self.entries[i].0 == *name {
                return Some(i);
            }
            i += 1;
        }
        None
    }

    /// Creates or fully replaces the file named `name`: truncate-if-exists
    /// semantics, never a merge.
    pub fn store(&mut self, name: &str, data: Vec<u8>)
        requires
            old(self).wf(),
            valid_segment(name@),
        ensures
            final(self).wf(),
            final(self)@ == old(self)@.insert(name@, data@),
    {
        let ghost s0 = self.entries@;
        let ghost k = name@;
        let ghost d = data@;
        let owned = String::from_str(name);
        match self.find(&owned) {
            Some(i) => {
                proof {
                    lemma_map_of_remove(s0, i as int);
                    s0.remove_ensures(i as int);
                }
                self.entries.remove(i);
                proof {
                    let s1 = self.entries@;
                    assert forall|a: int, b: int| 0 <= a < b < s1.len() implies s1[a].0@
                        != s1[b].0@ by {
                        if b < i {
                        } else if a < i {
                            assert(s1[a] == s0[a]);
                            assert(s1[b] == s0[b + 1]);
                        } else {
                            assert(s1[a] == s0[a + 1]);
                            assert(s1[b] == s0[b + 1]);
                        }
                    }
                    assert forall|a: int| 0 <= a < s1.len() implies valid_segment(s1[a].0@) by {
                        if a < i {
                            assert(s1[a] == s0[a]);
                        } else {
                            assert(s1[a] == s0[a + 1]);
                        }
                    }
                    assert forall|a: int| 0 <= a < s1.len() implies s1[a].0@ != k by {
                        if a < i {
                            assert(s1[a] == s0[a]);
                        } else {
                            assert(s1[a] == s0[a + 1]);
                        }
                    }
                }
            },
            None => {},
        }
        let ghost s1 = self.entries@;
        self.entries.push((owned, data));
        proof {
            let s2 = self.entries@;
            assert(s2.drop_last() =~= s1);
            assert(s2.last().0@ == k);
            assert(s2.last().1@ == d);
            assert(map_of(s2) == map_of(s1).insert(k, d));
            assert(map_of(s2) =~= map_of(s0).insert(k, d));
            assert forall|a: int, b: int| 0 <= a < b < s2.len() implies s2[a].0@ != s2[b].0@ by {
                if b < s2.len() - 1 {
                    assert(s2[a] == s1[a]);
                    assert(s2[b] == s1[b]);
                } else {
                    assert(s2[a] == s1[a]);
                    assert(s1[a].0@ != k);
                }
            }
            assert forall|a: int| 0 <= a < s2.len() implies valid_segment(s2[a].0@) by {
                if a < s2.len() - 1 {
                    assert(s2[a] == s1[a]);
                }
            }
        }
    }

    /// The stored contents under `name`, if that file is present.
    pub fn get<'a>(&'a self, name: &str) -> (r: Option<&'a Vec<u8>>)
        requires
            self.wf(),
        ensures
            match r {
                Some(d) => self@.dom().contains(name@) && d@ == self@[name@],
                None => !self@.dom().contains(name@),
            },
    {
        let owned = String::from_str(name);
        match self.find(&owned) {
            Some(i) => {
                proof {
                    lemma_map_of_index(self.entries@, i as int);
                }
                Some(&self.entries[i].1)
            },
            None => {
                proof {
                    lemma_map_of_contains(self.entries@, name@);
                }
                None
            },
        }
    }

    /// The names of all stored files, each exactly once, in no promised
    /// order.
    pub fn list_names(&self) -> (r: Vec<String>)
        requires
            self.wf(),
        ensures
            r.deep_view().to_set() == self@.dom(),
            r.deep_view().no_duplicates(),
    {
        let mut names: Vec<String> = Vec::new();
        let mut i: usize = 0;
        while i < self.entries.len()
            invariant
                i <= self.entries@.len(),
                names@.len() == i,
                forall|j: int| 0 <= j < i ==> names@[j]@ == self.entries@[j].0@,
            decreases self.entries@.len() - i,
        {
            names.push(self.entries[i].0.clone());
            i += 1;
        }
        proof {
            let s = self.entries@;
            let dv = names.deep_view();
            assert(dv.len() == s.len());
            assert(forall|j: int| 0 <= j < s.len() ==> dv[j] == s[j].0@);
            assert forall|k: Seq<char>| dv.to_set().contains(k) <==> self@.dom().contains(
                k,
            ) by {
                lemma_map_of_contains(s, k);
                if dv.to_set().contains(k) {
                    let j = choose|j: int| 0 <= j < dv.len() && dv[j] == k;
                    assert(s[j].0@ == k);
                }
                if self@.dom().contains(k) {
                    let j = choose|j: int| 0 <= j < s.len() && s[j].0@ == k;
                    assert(dv[j] == k);
                    assert(dv.contains(k));
                }
            }
            assert(dv.to_set() =~= self@.dom());
            assert forall|a: int, b: int|
                0 <= a < dv.len() && 0 <= b < dv.len() && a != b implies dv[a] != dv[b] by {
                assert(dv[a] == s[a].0@);
                assert(dv[b] == s[b].0@);
            }
        }
        names
    }
}

} // verus!
