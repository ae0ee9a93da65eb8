//! A note's speaker aliases: from a raw diarization label to the name it is
//! displayed under, each label at most once.
use vstd::prelude::*;

use crate::text::str_eq;

verus! {

/// One `raw label -> display name` entry.
pub struct AliasEntry {
    pub raw: String,
    pub name: String,
}

/// Two entries hold the same label and name.
pub open spec fn same_entry(a: AliasEntry, b: AliasEntry) -> bool {
    a.raw@ == b.raw@ && a.name@ == b.name@
}

/// `name` with `from` replaced by `to`.
pub open spec fn redirect_name(name: Seq<char>, from: Seq<char>, to: Seq<char>) -> Seq<char> {
    if name == from {
        to
    } else {
        name
    }
}

/// The aliases with every name `from` replaced by `to`, and the entries
/// that thereby map a label to itself dropped.
pub open spec fn redirected(m: Map<Seq<char>, Seq<char>>, from: Seq<char>, to: Seq<char>) -> Map<
    Seq<char>,
    Seq<char>,
> {
    Map::new(
        |k: Seq<char>| m.contains_key(k) && redirect_name(m[k], from, to) != k,
        |k: Seq<char>| redirect_name(m[k], from, to),
    )
}

/// Speaker aliases, kept as entries with distinct raw labels. The entries
/// live in a `Vec` under that invariant rather than in a map keyed by
/// `String`: vstd states what a hash map holds only for key types it knows
/// to obey its key model (integers, `bool`, ...), and `String` is not one,
/// so the contracts here could not say what such a map holds.
pub struct AliasMap {
    entries: Vec<AliasEntry>,
}

impl AliasMap {
    /// The entries, as `(raw, name)` pairs.
    pub closed spec fn pairs(&self) -> Seq<(Seq<char>, Seq<char>)> {
        self.entries@.map_values(|e: AliasEntry| (e.raw@, e.name@))
    }

    /// Every raw label occurs once.
    pub closed spec fn wf(&self) -> bool {
        forall|i: int, j: int|
            0 <= i < j < self.entries@.len() ==> self.entries@[i].raw@ != self.entries@[j].raw@
    }

    spec fn has(&self, k: Seq<char>) -> bool {
        exists|i: int| 0 <= i < self.entries@.len() && self.entries@[i].raw@ == k
    }

    spec fn name_at(&self, k: Seq<char>) -> Seq<char> {
        self.entries@[choose|i: int| 0 <= i < self.entries@.len() && self.entries@[i].raw@ == k].name@
    }

    proof fn lemma_at(&self, i: int)
        requires
            self.wf(),
            0 <= i < self.entries@.len(),
        ensures
            self.has(self.entries@[i].raw@),
            self.name_at(self.entries@[i].raw@) == self.entries@[i].name@,
    {
        let k = self.entries@[i].raw@;
        assert(self.has(k));
        let c = choose|j: int| 0 <= j < self.entries@.len() && self.entries@[j].raw@ == k;
        if c != i {
            if c < i {
                assert(self.entries@[c].raw@ != self.entries@[i].raw@);
            } else {
                assert(self.entries@[i].raw@ != self.entries@[c].raw@);
            }
        }
    }

    /// The whole map of aliases.
    pub closed spec fn map(&self) -> Map<Seq<char>, Seq<char>> {
        Map::new(|k: Seq<char>| self.has(k), |k: Seq<char>| self.name_at(k))
    }

    /// An empty alias map.
    pub fn new() -> (m: Self)
        ensures
            m.wf(),
            m.map() == Map::<Seq<char>, Seq<char>>::empty(),
    {
        let m = AliasMap { entries: Vec::new() };
        assert(m.map() =~= Map::<Seq<char>, Seq<char>>::empty());
        m
    }

    /// How many aliases there are.
    pub fn len(&self) -> (n: usize)
        requires
            self.wf(),
        ensures
            n == self.map().dom().len(),
    {
        proof {
            self.lemma_dom_len();
        }
        self.entries.len()
    }

    /// Every aliased label, once each.
    pub fn labels(&self) -> (r: Vec<String>)
        requires
            self.wf(),
        ensures
            r@.len() == self.map().dom().len(),
            forall|i: int| 0 <= i < r@.len() ==> self.map().contains_key(#[trigger] r@[i]@),
            forall|k: Seq<char>|
                self.map().contains_key(k) ==> exists|i: int| 0 <= i < r@.len() && #[trigger] r@[i]@ == k,
    {
        proof {
            self.lemma_dom_len();
        }
        let mut r: Vec<String> = Vec::new();
        let mut i: usize = 0;
        while i < self.entries.len()
            invariant
                self.wf(),
                i <= self.entries@.len(),
                r@.len() == i,
                forall|j: int| 0 <= j < i ==> #[trigger] r@[j]@ == self.entries@[j].raw@,
            decreases self.entries@.len() - i,
        {
            r.push(self.entries[i].raw.clone());
            i = i + 1;
        }
        assert forall|j: int| 0 <= j < r@.len() implies self.map().contains_key(#[trigger] r@[j]@) by {
            self.lemma_at(j);
        }
        assert forall|k: Seq<char>| self.map().contains_key(k) implies exists|j: int|
            0 <= j < r@.len() && #[trigger] r@[j]@ == k by {
            let j = choose|j: int| 0 <= j < self.entries@.len() && self.entries@[j].raw@ == k;
            assert(r@[j]@ == k);
        }
        r
    }

    proof fn lemma_dom_len(&self)
        requires
            self.wf(),
        ensures
            self.map().dom().len() == self.entries@.len(),
            self.map().dom().finite(),
        decreases self.entries@.len(),
    {
        let keys = self.entries@.map_values(|e: AliasEntry| e.raw@);
        assert(keys.no_duplicates()) by {
            assert forall|i: int, j: int| 0 <= i < keys.len() && 0 <= j < keys.len() && i != j implies keys[i] != keys[j] by {
                if i < j {
                } else {
                }
            }
        }
        keys.unique_seq_to_set();
        assert(self.map().dom() =~= keys.to_set()) by {
            assert forall|k: Seq<char>| self.map().dom().contains(k) <==> keys.to_set().contains(k) by {
                if self.has(k) {
                    let i = choose|i: int| 0 <= i < self.entries@.len() && self.entries@[i].raw@ == k;
                    assert(keys[i] == k);
                }
                if keys.to_set().contains(k) {
                    let i = choose|i: int| 0 <= i < keys.len() && keys[i] == k;
                    assert(self.entries@[i].raw@ == k);
                }
            }
        }
    }

    /// Index of the entry for `k`.
    fn index_of(&self, k: &str) -> (r: Option<usize>)
        requires
            self.wf(),
        ensures
            match r {
                Some(i) => i < self.entries@.len() && self.entries@[i as int].raw@ == k@,
                None => !self.has(k@),
            },
    {
        let mut i: usize = 0;
        while i < self.entries.len()
            invariant
                i <= self.entries@.len(),
                forall|j: int| 0 <= j < i ==> self.entries@[j].raw@ != k@,
            decreases self.entries@.len() - i,
        {
            if str_eq(self.entries[i].raw.as_str(), k) {
                return Some(i);
            }
            i = i + 1;
        }
        None
    }

    /// The name `k` is displayed under, if it has an alias.
    pub fn get(&self, k: &str) -> (r: Option<String>)
        requires
            self.wf(),
        ensures
            match r {
                Some(v) => self.map().contains_key(k@) && self.map()[k@] == v@,
                None => !self.map().contains_key(k@),
            },
    {
        match self.index_of(k) {
            Some(i) => {
                proof {
                    self.lemma_at(i as int);
                }
                Some(self.entries[i].name.clone())
            },
            None => None,
        }
    }

    /// Sets the alias of `k` to `v`.
    pub fn insert(&mut self, k: String, v: String)
        requires
            old(self).wf(),
        ensures
            final(self).wf(),
            final(self).map() == old(self).map().insert(k@, v@),
    {
        let ghost old_self = *self;
        match self.index_of(k.as_str()) {
            Some(i) => {
                self.entries.set(i, AliasEntry { raw: k, name: v });
                proof {
                    assert(self.wf());
                    assert forall|key: Seq<char>| #[trigger] self.map().contains_key(key)
                        == old_self.map().insert(k@, v@).contains_key(key) by {
                        if old_self.has(key) {
                            let j = choose|j: int| 0 <= j < old_self.entries@.len()
                                && old_self.entries@[j].raw@ == key;
                            assert(self.entries@[j].raw@ == key);
                        }
                        if self.has(key) && key != k@ {
                            let j = choose|j: int| 0 <= j < self.entries@.len()
                                && self.entries@[j].raw@ == key;
                            assert(old_self.entries@[j].raw@ == key);
                        }
                    }
                    assert forall|key: Seq<char>| #[trigger] self.map().contains_key(key) implies self.map()[key]
                        == old_self.map().insert(k@, v@)[key] by {
                        let j = choose|j: int| 0 <= j < self.entries@.len()
                            && self.entries@[j].raw@ == key;
                        self.lemma_at(j);
                        if key != k@ {
                            assert(old_self.entries@[j] == self.entries@[j]);
                            old_self.lemma_at(j);
                        } else {
                            assert(j == i);
                        }
                    }
                    assert(self.map() =~= old_self.map().insert(k@, v@));
                }
            },
            None => {
                self.entries.push(AliasEntry { raw: k, name: v });
                proof {
                    let n = old_self.entries@.len() as int;
                    assert(self.wf());
                    assert forall|key: Seq<char>| #[trigger] self.map().contains_key(key)
                        == old_self.map().insert(k@, v@).contains_key(key) by {
                        if old_self.has(key) {
                            let j = choose|j: int| 0 <= j < old_self.entries@.len()
                                && old_self.entries@[j].raw@ == key;
                            assert(self.entries@[j].raw@ == key);
                        }
                        if key == k@ {
                            assert(self.entries@[n].raw@ == key);
                        }
                        if self.has(key) && key != k@ {
                            let j = choose|j: int| 0 <= j < self.entries@.len()
                                && self.entries@[j].raw@ == key;
                            assert(j < n);
                            assert(old_self.entries@[j].raw@ == key);
                        }
                    }
                    assert forall|key: Seq<char>| #[trigger] self.map().contains_key(key) implies self.map()[key]
                        == old_self.map().insert(k@, v@)[key] by {
                        let j = choose|j: int| 0 <= j < self.entries@.len()
                            && self.entries@[j].raw@ == key;
                        self.lemma_at(j);
                        if j < n {
                            assert(old_self.entries@[j] == self.entries@[j]);
                            old_self.lemma_at(j);
                        }
                    }
                    assert(self.map() =~= old_self.map().insert(k@, v@));
                }
            },
        }
    }

    /// Drops the alias of `k`, if any.
    pub fn remove(&mut self, k: &str)
        requires
            old(self).wf(),
        ensures
            final(self).wf(),
            final(self).map() == old(self).map().remove(k@),
    {
        let ghost old_self = *self;
        match self.index_of(k) {
            Some(i) => {
                self.entries.remove(i);
                proof {
                    assert(self.wf()) by {
                        assert forall|a: int, b: int| 0 <= a < b < self.entries@.len() implies self.entries@[a].raw@
                            != self.entries@[b].raw@ by {
                            let oa = if a < i { a } else { a + 1 };
                            let ob = if b < i { b } else { b + 1 };
                            assert(self.entries@[a] == old_self.entries@[oa]);
                            assert(self.entries@[b] == old_self.entries@[ob]);
                        }
                    }
                    assert forall|key: Seq<char>| #[trigger] self.map().contains_key(key)
                        == old_self.map().remove(k@).contains_key(key) by {
                        if old_self.has(key) && key != k@ {
                            let j = choose|j: int| 0 <= j < old_self.entries@.len()
                                && old_self.entries@[j].raw@ == key;
                            assert(j != i);
                            let nj = if j < i { j } else { j - 1 };
                            assert(self.entries@[nj].raw@ == key);
                        }
                        if self.has(key) {
                            let j = choose|j: int| 0 <= j < self.entries@.len()
                                && self.entries@[j].raw@ == key;
                            let oj = if j < i { j } else { j + 1 };
                            assert(old_self.entries@[oj].raw@ == key);
                            assert(oj != i ==> old_self.entries@[oj].raw@ != old_self.entries@[i as int].raw@);
                        }
                    }
                    assert forall|key: Seq<char>| #[trigger] self.map().contains_key(key) implies self.map()[key]
                        == old_self.map().remove(k@)[key] by {
                        let j = choose|j: int| 0 <= j < self.entries@.len()
                            && self.entries@[j].raw@ == key;
                        self.lemma_at(j);
                        let oj = if j < i { j } else { j + 1 };
                        assert(old_self.entries@[oj] == self.entries@[j]);
                        old_self.lemma_at(oj);
                    }
                    assert(self.map() =~= old_self.map().remove(k@));
                }
            },
            None => {
                proof {
                    assert(self.map() =~= old_self.map().remove(k@));
                }
            },
        }
    }

    /// Whether some label other than `label` is displayed as `name`.
    pub fn name_taken_by_other(&self, label: &str, name: &str) -> (b: bool)
        requires
            self.wf(),
        ensures
            b == exists|other: Seq<char>|
                #![trigger self.map().contains_key(other)]
                self.map().contains_key(other) && other != label@ && self.map()[other] == name@,
    {
        let mut i: usize = 0;
        while i < self.entries.len()
            invariant
                self.wf(),
                i <= self.entries@.len(),
                forall|j: int|
                    0 <= j < i ==> !(self.entries@[j].raw@ != label@ && self.entries@[j].name@
                        == name@),
            decreases self.entries@.len() - i,
        {
            if !str_eq(self.entries[i].raw.as_str(), label) && str_eq(self.entries[i].name.as_str(), name) {
                proof {
                    self.lemma_at(i as int);
                    assert(self.map().contains_key(self.entries@[i as int].raw@));
                }
                return true;
            }
            i = i + 1;
        }
        proof {
            assert forall|other: Seq<char>|
                self.map().contains_key(other) && other != label@ implies self.map()[other] != name@ by {
                let j = choose|j: int| 0 <= j < self.entries@.len() && self.entries@[j].raw@ == other;
                self.lemma_at(j);
            }
        }
        false
    }

    /// Keeps only the entries whose name is not `name`.
    pub fn retain_names_not(&mut self, name: &str)
        requires
            old(self).wf(),
        ensures
            final(self).wf(),
            final(self).map() == old(self).map().restrict(
                old(self).map().dom().filter(|k: Seq<char>| old(self).map()[k] != name@),
            ),
    {
        let ghost old_self = *self;
        let ghost old_e = self.entries@;
        let mut kept: Vec<AliasEntry> = Vec::new();
        let ghost mut origin: Seq<int> = Seq::empty();
        let ghost mut pos: Seq<int> = Seq::empty();
        let mut i: usize = 0;
        let n = self.entries.len();
        while i < n
            invariant
                old_self.wf(),
                old_e == old_self.entries@,
                self.entries == old_self.entries,
                n == old_e.len(),
                i <= n,
                origin.len() == kept@.len(),
                pos.len() == i,
                forall|a: int|
                    #![trigger origin[a]]
                    0 <= a < kept@.len() ==> 0 <= origin[a] < i && same_entry(
                        kept@[a],
                        old_e[origin[a]],
                    ) && old_e[origin[a]].name@ != name@,
                forall|j: int|
                    #![trigger pos[j]]
                    0 <= j < i && old_e[j].name@ != name@ ==> 0 <= pos[j] < kept@.len()
                        && origin[pos[j]] == j,
                forall|a: int, b: int|
                    0 <= a < b < kept@.len() ==> kept@[a].raw@ != kept@[b].raw@,
                forall|a: int, j: int|
                    0 <= a < kept@.len() && i <= j < n ==> kept@[a].raw@ != old_e[j].raw@,
            decreases n - i,
        {
            let ghost prev = kept@;
            let e = &self.entries[i];
            if !str_eq(e.name.as_str(), name) {
                let ne = AliasEntry { raw: e.raw.clone(), name: e.name.clone() };
                kept.push(ne);
                proof {
                    let last = prev.len() as int;
                    origin = origin.push(i as int);
                    pos = pos.push(last);
                    assert(same_entry(kept@[last], old_e[i as int]));
                    assert forall|a: int| #![trigger origin[a]] 0 <= a < kept@.len() implies 0 <= origin[a]
                        < i + 1 && same_entry(kept@[a], old_e[origin[a]]) && old_e[origin[a]].name@
                        != name@ by {
                        if a < last {
                            assert(kept@[a] == prev[a]);
                        }
                    }
                    assert forall|a: int, j: int|
                        0 <= a < kept@.len() && i + 1 <= j < n implies kept@[a].raw@ != old_e[j].raw@ by {
                        if a == last {
                            assert(old_e[i as int].raw@ != old_e[j].raw@);
                        } else {
                            assert(kept@[a] == prev[a]);
                        }
                    }
                    assert forall|a: int, b: int| 0 <= a < b < kept@.len() implies kept@[a].raw@
                        != kept@[b].raw@ by {
                        if b == last {
                            assert(kept@[a] == prev[a]);
                        } else {
                            assert(kept@[a] == prev[a]);
                            assert(kept@[b] == prev[b]);
                        }
                    }
                }
            } else {
                proof {
                    pos = pos.push(-1);
                }
            }
            i = i + 1;
        }
        self.entries = kept;
        proof {
            let target = old_self.map().restrict(
                old_self.map().dom().filter(|k: Seq<char>| old_self.map()[k] != name@),
            );
            assert forall|key: Seq<char>| #[trigger] self.map().contains_key(key) == target.contains_key(key) by {
                if self.has(key) {
                    let a = choose|a: int| 0 <= a < self.entries@.len() && self.entries@[a].raw@ == key;
                    let j = origin[a];
                    old_self.lemma_at(j);
                }
                if target.contains_key(key) {
                    let j = choose|j: int| 0 <= j < old_e.len() && old_e[j].raw@ == key;
                    old_self.lemma_at(j);
                    let a = pos[j];
                    assert(same_entry(kept@[a], old_e[origin[a]]));
                    assert(self.entries@[a].raw@ == key);
                }
            }
            assert forall|key: Seq<char>| #[trigger] self.map().contains_key(key) implies self.map()[key] == target[key] by {
                let a = choose|a: int| 0 <= a < self.entries@.len() && self.entries@[a].raw@ == key;
                self.lemma_at(a);
                let j = origin[a];
                old_self.lemma_at(j);
            }
            assert(self.map() =~= target);
        }
    }

    /// Points every entry that displayed `from` at `to` instead, dropping
    /// any entry that thereby maps a label to itself.
    pub fn redirect(&mut self, from: &str, to: &str)
        requires
            old(self).wf(),
        ensures
            final(self).wf(),
            final(self).map() == redirected(old(self).map(), from@, to@),
    {
        let ghost old_self = *self;
        let ghost old_e = self.entries@;
        let mut kept: Vec<AliasEntry> = Vec::new();
        let ghost mut origin: Seq<int> = Seq::empty();
        let ghost mut pos: Seq<int> = Seq::empty();
        let mut i: usize = 0;
        let n = self.entries.len();
        while i < n
            invariant
                old_self.wf(),
                old_e == old_self.entries@,
                self.entries == old_self.entries,
                n == old_e.len(),
                i <= n,
                origin.len() == kept@.len(),
                pos.len() == i,
                forall|a: int|
                    #![trigger origin[a]]
                    0 <= a < kept@.len() ==> 0 <= origin[a] < i && kept@[a].raw@ == old_e[origin[a]].raw@
                        && kept@[a].name@ == redirect_name(old_e[origin[a]].name@, from@, to@)
                        && kept@[a].raw@ != kept@[a].name@,
                forall|j: int|
                    #![trigger pos[j]]
                    0 <= j < i && old_e[j].raw@ != redirect_name(old_e[j].name@, from@, to@) ==> 0
                        <= pos[j] < kept@.len() && origin[pos[j]] == j,
                forall|a: int, b: int|
                    0 <= a < b < kept@.len() ==> kept@[a].raw@ != kept@[b].raw@,
                forall|a: int, j: int|
                    0 <= a < kept@.len() && i <= j < n ==> kept@[a].raw@ != old_e[j].raw@,
            decreases n - i,
        {
            let ghost prev = kept@;
            let e = &self.entries[i];
            let new_name = if str_eq(e.name.as_str(), from) {
                String::from_str(to)
            } else {
                e.name.clone()
            };
            if !str_eq(e.raw.as_str(), new_name.as_str()) {
                let ne = AliasEntry { raw: e.raw.clone(), name: new_name };
                kept.push(ne);
                proof {
                    let last = prev.len() as int;
                    origin = origin.push(i as int);
                    pos = pos.push(last);
                    assert forall|a: int| #![trigger origin[a]] 0 <= a < kept@.len() implies 0 <= origin[a]
                        < i + 1 && kept@[a].raw@ == old_e[origin[a]].raw@ && kept@[a].name@
                        == redirect_name(old_e[origin[a]].name@, from@, to@) && kept@[a].raw@
                        != kept@[a].name@ by {
                        if a < last {
                            assert(kept@[a] == prev[a]);
                        }
                    }
                    assert forall|a: int, j: int|
                        0 <= a < kept@.len() && i + 1 <= j < n implies kept@[a].raw@ != old_e[j].raw@ by {
                        if a == last {
                            assert(old_e[i as int].raw@ != old_e[j].raw@);
                        } else {
                            assert(kept@[a] == prev[a]);
                        }
                    }
                    assert forall|a: int, b: int| 0 <= a < b < kept@.len() implies kept@[a].raw@
                        != kept@[b].raw@ by {
                        if b == last {
                            assert(kept@[a] == prev[a]);
                        } else {
                            assert(kept@[a] == prev[a]);
                            assert(kept@[b] == prev[b]);
                        }
                    }
                }
            } else {
                proof {
                    pos = pos.push(-1);
                }
            }
            i = i + 1;
        }
        self.entries = kept;
        proof {
            let target = redirected(old_self.map(), from@, to@);
            assert forall|key: Seq<char>| #[trigger] self.map().contains_key(key) == target.contains_key(key) by {
                if self.has(key) {
                    let a = choose|a: int| 0 <= a < self.entries@.len() && self.entries@[a].raw@ == key;
                    let j = origin[a];
                    old_self.lemma_at(j);
                }
                if target.contains_key(key) {
                    let j = choose|j: int| 0 <= j < old_e.len() && old_e[j].raw@ == key;
                    old_self.lemma_at(j);
                    let a = pos[j];
                    assert(self.entries@[a].raw@ == key);
                }
            }
            assert forall|key: Seq<char>| #[trigger] self.map().contains_key(key) implies self.map()[key] == target[key] by {
                let a = choose|a: int| 0 <= a < self.entries@.len() && self.entries@[a].raw@ == key;
                self.lemma_at(a);
                let j = origin[a];
                old_self.lemma_at(j);
            }
            assert(self.map() =~= target);
        }
    }
}

} // verus!
