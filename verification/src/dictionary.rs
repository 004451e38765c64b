//! The dictionary of candidate names, keyed by digest text.

use vstd::prelude::*;
use vstd::hash_map::StringHashMap;
use vstd::string::*;
use crate::hasher::{hash_text, text_key};
use crate::text::{candidate_of, clean_line, lowercase, lowercase_of};

verus! {

/// What a dictionary holds: for each digest text, the name and its flag.
pub type Table = Map<Seq<char>, (Seq<char>, bool)>;

/// Candidate names in a hash map keyed by digest text. Beside the map the
/// keys are kept in the order in which they first came, so that listings
/// follow the name list.
pub struct NameDictionary {
    table: StringHashMap<(String, bool)>,
    order: Vec<String>,
}

/// Whether no two keys of a listing are the same text.
pub open spec fn distinct(order: Seq<String>) -> bool {
    forall|i: int, j: int| 0 <= i < j < order.len() ==> (#[trigger] order[i])@ != (#[trigger] order[j])@
}

/// Whether the text `h` is among the keys of a listing.
pub open spec fn has_key(order: Seq<String>, h: Seq<char>) -> bool {
    exists|i: int| 0 <= i < order.len() && (#[trigger] order[i])@ == h
}

/// The texts among the keys of a listing.
pub open spec fn key_set(order: Seq<String>) -> Set<Seq<char>> {
    Set::new(|h: Seq<char>| has_key(order, h))
}

/// The key under which a name is filed: the digest text of its lowercase
/// form where case is folded, of the name as written where it is not.
pub open spec fn key_of(name: Seq<char>, fold_case: bool) -> Seq<char> {
    if fold_case {
        text_key(lowercase_of(name))
    } else {
        text_key(name)
    }
}

/// The table after a lookup of `h` that flags what it finds.
pub open spec fn marked(d: Table, h: Seq<char>) -> Table {
    if d.contains_key(h) {
        d.insert(h, (d[h].0, true))
    } else {
        d
    }
}

/// The table that the lines of a name list give, read in order: each line
/// that leaves a candidate files it, unmatched, under its key; a key that
/// comes again replaces the earlier entry.
pub open spec fn loaded(lines: Seq<String>, fold_case: bool) -> Table
    decreases lines.len(),
{
    if lines.len() == 0 {
        Map::empty()
    } else {
        let rest = loaded(lines.drop_last(), fold_case);
        let name = candidate_of(lines.last()@);
        if name.len() == 0 {
            rest
        } else {
            rest.insert(key_of(name, fold_case), (name, false))
        }
    }
}

/// Whether the pair of digest text `h` and name `n` is in a listing.
pub open spec fn listed(r: Seq<(String, String)>, h: Seq<char>, n: Seq<char>) -> bool {
    exists|k: int| 0 <= k < r.len() && (#[trigger] r[k]).0@ == h && r[k].1@ == n
}

proof fn lemma_key_set(order: Seq<String>)
    ensures
        key_set(order).finite(),
        distinct(order) ==> key_set(order).len() == order.len(),
    decreases order.len(),
{
    if order.len() == 0 {
        assert(key_set(order) =~= Set::<Seq<char>>::empty());
    } else {
        let front = order.drop_last();
        let last = order.last()@;
        let n = order.len() - 1;
        lemma_key_set(front);
        lemma_keys_after_push(front, order.last());
        assert(front.push(order.last()) =~= order);
        assert(key_set(order) =~= key_set(front).insert(last));
        if distinct(order) {
            assert(distinct(front)) by {
                assert forall|i: int, j: int| 0 <= i < j < front.len() implies (#[trigger] front[i])@ != (
                #[trigger] front[j])@ by {
                    assert(order[i]@ != order[j]@);
                }
            }
            assert(!has_key(front, last)) by {
                if has_key(front, last) {
                    let i = choose|i: int| 0 <= i < front.len() && (#[trigger] front[i])@ == last;
                    assert(order[i]@ != order[n]@);
                }
            }
        }
    }
}

proof fn lemma_keys_after_push(order: Seq<String>, key: String)
    ensures
        forall|h: Seq<char>|
            #![trigger has_key(order.push(key), h)]
            has_key(order.push(key), h) <==> (has_key(order, h) || h == key@),
        distinct(order) && !has_key(order, key@) ==> distinct(order.push(key)),
{
    let after = order.push(key);
    assert forall|h: Seq<char>| #![trigger has_key(after, h)] has_key(after, h) <==> (has_key(order, h)
        || h == key@) by {
        if has_key(after, h) {
            let i = choose|i: int| 0 <= i < after.len() && (#[trigger] after[i])@ == h;
            if i < order.len() {
                assert(order[i]@ == h);
            }
        }
        if has_key(order, h) {
            let i = choose|i: int| 0 <= i < order.len() && (#[trigger] order[i])@ == h;
            assert(after[i]@ == h);
        }
        if h == key@ {
            assert(after[order.len() as int]@ == h);
        }
    }
    if distinct(order) && !has_key(order, key@) {
        assert forall|i: int, j: int| 0 <= i < j < after.len() implies (#[trigger] after[i])@ != (
        #[trigger] after[j])@ by {
            if j < order.len() {
                assert(order[i]@ != order[j]@);
            } else {
                assert(order[i]@ != key@);
            }
        }
    }
}

impl NameDictionary {
    /// The invariant: the listing of keys holds each key of the map once.
    pub closed spec fn wf(&self) -> bool {
        &&& distinct(self.order@)
        &&& forall|h: Seq<char>|
            #![trigger self.table@.contains_key(h)]
            #![trigger has_key(self.order@, h)]
            self.table@.contains_key(h) <==> has_key(self.order@, h)
    }

    /// The table that the dictionary stands for.
    pub closed spec fn view(&self) -> Table {
        Map::new(
            |h: Seq<char>| self.table@.contains_key(h),
            |h: Seq<char>| (self.table@[h].0@, self.table@[h].1),
        )
    }

    /// An empty dictionary.
    pub fn new() -> (d: Self)
        ensures
            d.wf(),
            d@ == Map::<Seq<char>, (Seq<char>, bool)>::empty(),
    {
        let d = NameDictionary { table: StringHashMap::new(), order: Vec::new() };
        assert(d@ =~= Map::<Seq<char>, (Seq<char>, bool)>::empty());
        d
    }

    /// The number of entries.
    pub fn len(&self) -> (n: usize)
        requires
            self.wf(),
        ensures
            self@.dom().finite(),
            n == self@.dom().len(),
    {
        proof {
            lemma_key_set(self.order@);
            assert(self@.dom() =~= key_set(self.order@));
        }
        self.order.len()
    }

    fn put(&mut self, hash: String, name: String, matched: bool)
        requires
            old(self).wf(),
        ensures
            final(self).wf(),
            final(self)@ == old(self)@.insert(hash@, (name@, matched)),
    {
        let ghost key = hash@;
        let ghost value = (name@, matched);
        if !self.table.contains_key(hash.as_str()) {
            proof {
                lemma_keys_after_push(self.order@, hash);
            }
            self.order.push(hash.clone());
        }
        self.table.insert(hash, (name, matched));
        assert(self@ =~= old(self)@.insert(key, value));
    }

    /// Files `name`, unmatched, under `hash`. An entry already filed under
    /// `hash` is replaced.
    pub fn insert(&mut self, hash: String, name: String)
        requires
            old(self).wf(),
        ensures
            final(self).wf(),
            final(self)@ == old(self)@.insert(hash@, (name@, false)),
    {
        self.put(hash, name, false);
    }

    /// Files a name under its key: the digest text of its lowercase form
    /// where `fold_case` is set, of the name as written where it is not.
    pub fn add(&mut self, name: &str, fold_case: bool)
        requires
            old(self).wf(),
        ensures
            final(self).wf(),
            final(self)@ == old(self)@.insert(key_of(name@, fold_case), (name@, false)),
    {
        let key: String = if fold_case {
            let lower: String = lowercase(name);
            hash_text(lower.as_str())
        } else {
            hash_text(name)
        };
        self.insert(key, name.to_owned());
    }

    /// Reads a name list, line by line.
    pub fn load(lines: &Vec<String>, fold_case: bool) -> (d: Self)
        ensures
            d.wf(),
            d@ == loaded(lines@, fold_case),
    {
        let mut d = NameDictionary::new();
        let mut i: usize = 0;
        while i < lines.len()
            invariant
                i <= lines.len(),
                d.wf(),
                d@ == loaded(lines@.subrange(0, i as int), fold_case),
            decreases lines.len() - i,
        {
            proof {
                let upto = lines@.subrange(0, i + 1);
                assert(upto.drop_last() =~= lines@.subrange(0, i as int));
                assert(upto.last() == lines@[i as int]);
            }
            match clean_line(lines[i].as_str()) {
                Some(name) => {
                    d.add(name.as_str(), fold_case);
                },
                None => {},
            }
            i += 1;
        }
        assert(lines@.subrange(0, lines.len() as int) =~= lines@);
        d
    }

    /// The name filed under `hash`, if there is one. Nothing is flagged.
    pub fn get(&self, hash: &str) -> (r: Option<String>)
        requires
            self.wf(),
        ensures
            r.is_some() == self@.contains_key(hash@),
            r.is_some() ==> r.unwrap()@ == self@[hash@].0,
    {
        match self.table.get(hash) {
            Some(entry) => Some(entry.0.clone()),
            None => None,
        }
    }

    /// Looks `hash` up and flags the entry found as matched.
    pub fn mark(&mut self, hash: &str) -> (r: Option<String>)
        requires
            old(self).wf(),
        ensures
            final(self).wf(),
            final(self)@ == marked(old(self)@, hash@),
            r.is_some() == old(self)@.contains_key(hash@),
            r.is_some() ==> r.unwrap()@ == old(self)@[hash@].0,
    {
        match self.get(hash) {
            Some(name) => {
                let kept: String = name.clone();
                self.put(hash.to_owned(), kept, true);
                Some(name)
            },
            None => None,
        }
    }

    /// The entries that no lookup has flagged, as pairs of digest text and
    /// name, each once.
    pub fn unused(&self) -> (r: Vec<(String, String)>)
        requires
            self.wf(),
        ensures
            forall|h: Seq<char>, n: Seq<char>|
                listed(r@, h, n) <==> (self@.contains_key(h) && self@[h] == (n, false)),
            forall|a: int, b: int| 0 <= a < b < r.len() ==> (#[trigger] r[a]).0@ != (#[trigger] r[b]).0@,
    {
        let mut out: Vec<(String, String)> = Vec::new();
        let ghost mut src: Seq<int> = Seq::empty();
        let mut i: usize = 0;
        while i < self.order.len()
            invariant
                i <= self.order.len(),
                self.wf(),
                src.len() == out.len(),
                forall|k: int|
                    0 <= k < out.len() ==> 0 <= #[trigger] src[k] < i && self.order[src[k]]@ == out[k].0@
                        && self.table@.contains_key(out[k].0@) && self.table@[out[k].0@].0@
                        == out[k].1@ && !self.table@[out[k].0@].1,
                forall|a: int, b: int| 0 <= a < b < out.len() ==> #[trigger] src[a] < #[trigger] src[b],
                forall|j: int|
                    0 <= j < i && !self.table@[(#[trigger] self.order[j])@].1 ==> listed(
                        out@,
                        self.order[j]@,
                        self.table@[self.order[j]@].0@,
                    ),
            decreases self.order.len() - i,
        {
            let key: &String = &self.order[i];
            assert(has_key(self.order@, key@));
            match self.table.get(key.as_str()) {
                Some(entry) => {
                    if !entry.1 {
                        let ghost prev = out@;
                        out.push((key.clone(), entry.0.clone()));
                        proof {
                            let earlier = src;
                            src = src.push(i as int);
                            assert(*entry == self.table@[key@]);
                            assert(out@[prev.len() as int].0@ == key@);
                            assert(out@[prev.len() as int].1@ == entry.0@);
                            assert forall|k: int| 0 <= k < out.len() implies 0 <= #[trigger] src[k] < i + 1
                                && self.order[src[k]]@ == out[k].0@ && self.table@.contains_key(
                                out[k].0@,
                            ) && self.table@[out[k].0@].0@ == out[k].1@ && !self.table@[out[k].0@].1 by {
                                if k < prev.len() {
                                    assert(src[k] == earlier[k]);
                                    assert(out@[k] == prev[k]);
                                }
                            }
                            assert forall|j: int|
                                0 <= j <= i && !self.table@[(#[trigger] self.order[j])@].1 implies listed(
                                out@,
                                self.order[j]@,
                                self.table@[self.order[j]@].0@,
                            ) by {
                                if j < i {
                                    let k = choose|k: int|
                                        0 <= k < prev.len() && (#[trigger] prev[k]).0@ == self.order[j]@
                                            && prev[k].1@ == self.table@[self.order[j]@].0@;
                                    assert(out@[k] == prev[k]);
                                } else {
                                    assert(out@[prev.len() as int].0@ == self.order[j]@);
                                }
                            }
                        }
                    }
                },
                None => {},
            }
            i += 1;
        }
        proof {
            let order = self.order@;
            assert forall|h: Seq<char>, n: Seq<char>|
                listed(out@, h, n) <==> (self@.contains_key(h) && self@[h] == (n, false)) by {
                if listed(out@, h, n) {
                    let k = choose|k: int| 0 <= k < out@.len() && (#[trigger] out@[k]).0@ == h && out@[k].1@ == n;
                    assert(order[src[k]]@ == h);
                }
                if self@.contains_key(h) && self@[h] == (n, false) {
                    assert(has_key(order, h));
                    let j = choose|j: int| 0 <= j < order.len() && (#[trigger] order[j])@ == h;
                    assert(!self.table@[order[j]@].1);
                }
            }
            assert forall|a: int, b: int| 0 <= a < b < out.len() implies (#[trigger] out[a]).0@ != (
            #[trigger] out[b]).0@ by {
                assert(src[a] < src[b]);
                assert(order[src[a]]@ != order[src[b]]@);
            }
        }
        out
    }
}

} // verus!
