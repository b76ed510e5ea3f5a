//! A small map keyed by text: each key at most once, looked up by its characters.
use vstd::prelude::*;

use crate::text::text_eq;

verus! {

/// A map from text to `V`.
#[derive(Debug)]
pub struct FieldMap<V> {
    entries: Vec<(String, V)>,
}

/// The map that a list of pairs stands for; a later pair covers an earlier one with its key.
pub open spec fn pairs_map<V>(pairs: Seq<(String, V)>) -> Map<Seq<char>, V>
    decreases pairs.len(),
{
    if pairs.len() == 0 {
        Map::empty()
    } else {
        pairs_map(pairs.drop_last()).insert(pairs.last().0@, pairs.last().1)
    }
}

/// Whether no key occurs twice.
pub open spec fn distinct_keys<V>(pairs: Seq<(String, V)>) -> bool
    decreases pairs.len(),
{
    pairs.len() == 0 || (distinct_keys(pairs.drop_last()) && !pairs_map(
        pairs.drop_last(),
    ).dom().contains(pairs.last().0@))
}

proof fn lemma_keys<V>(pairs: Seq<(String, V)>, k: Seq<char>)
    ensures
        pairs_map(pairs).dom().contains(k) <==> exists|i: int|
            0 <= i < pairs.len() && #[trigger] pairs[i].0@ == k,
    decreases pairs.len(),
{
    if pairs.len() > 0 {
        let rest = pairs.drop_last();
        lemma_keys(rest, k);
        if pairs_map(pairs).dom().contains(k) {
            if k == pairs.last().0@ {
                assert(pairs[pairs.len() - 1].0@ == k);
            } else {
                let i = choose|i: int| 0 <= i < rest.len() && #[trigger] rest[i].0@ == k;
                assert(pairs[i].0@ == k);
            }
        }
        if exists|i: int| 0 <= i < pairs.len() && #[trigger] pairs[i].0@ == k {
            let i = choose|i: int| 0 <= i < pairs.len() && #[trigger] pairs[i].0@ == k;
            if i < rest.len() {
                assert(rest[i].0@ == k);
            }
        }
    }
}

proof fn lemma_value<V>(pairs: Seq<(String, V)>, i: int)
    requires
        distinct_keys(pairs),
        0 <= i < pairs.len(),
    ensures
        pairs_map(pairs).dom().contains(pairs[i].0@),
        pairs_map(pairs)[pairs[i].0@] == pairs[i].1,
    decreases pairs.len(),
{
    if i < pairs.len() - 1 {
        let rest = pairs.drop_last();
        lemma_value(rest, i);
        assert(rest[i] == pairs[i]);
    }
}

proof fn lemma_update<V>(pairs: Seq<(String, V)>, i: int, e: (String, V))
    requires
        distinct_keys(pairs),
        0 <= i < pairs.len(),
        e.0@ == pairs[i].0@,
    ensures
        distinct_keys(pairs.update(i, e)),
        pairs_map(pairs.update(i, e)) == pairs_map(pairs).insert(e.0@, e.1),
    decreases pairs.len(),
{
    let rest = pairs.drop_last();
    let new = pairs.update(i, e);
    if i < rest.len() {
        lemma_update(rest, i, e);
        assert(new.drop_last() == rest.update(i, e));
        lemma_value(rest, i);
        assert(pairs_map(new) =~= pairs_map(pairs).insert(e.0@, e.1));
    } else {
        assert(new.drop_last() == rest);
        assert(pairs_map(new) =~= pairs_map(pairs).insert(e.0@, e.1));
    }
}

proof fn lemma_remove<V>(pairs: Seq<(String, V)>, i: int)
    requires
        distinct_keys(pairs),
        0 <= i < pairs.len(),
    ensures
        distinct_keys(pairs.remove(i)),
        pairs_map(pairs.remove(i)) == pairs_map(pairs).remove(pairs[i].0@),
    decreases pairs.len(),
{
    let rest = pairs.drop_last();
    let shorter = pairs.remove(i);
    if i < rest.len() {
        lemma_remove(rest, i);
        lemma_value(rest, i);
        assert(shorter.drop_last() == rest.remove(i));
        assert(shorter.last() == pairs.last());
        assert(pairs_map(shorter) =~= pairs_map(pairs).remove(pairs[i].0@));
    } else {
        assert(shorter == rest);
        assert(pairs_map(shorter) =~= pairs_map(pairs).remove(pairs[i].0@));
    }
}

proof fn lemma_size<V>(pairs: Seq<(String, V)>)
    requires
        distinct_keys(pairs),
    ensures
        pairs_map(pairs).dom().finite(),
        pairs_map(pairs).dom().len() == pairs.len(),
    decreases pairs.len(),
{
    if pairs.len() > 0 {
        let rest = pairs.drop_last();
        lemma_size(rest);
        assert(pairs_map(pairs).dom() =~= pairs_map(rest).dom().insert(pairs.last().0@));
    }
}

proof fn lemma_order<V>(pairs: Seq<(String, V)>, i: int, j: int)
    requires
        distinct_keys(pairs),
        0 <= i < j < pairs.len(),
    ensures
        pairs[i].0@ != pairs[j].0@,
    decreases pairs.len(),
{
    let rest = pairs.drop_last();
    if j < rest.len() {
        lemma_order(rest, i, j);
    } else {
        lemma_keys(rest, pairs[j].0@);
        assert(rest[i].0@ == pairs[i].0@);
    }
}

impl<V> View for FieldMap<V> {
    type V = Map<Seq<char>, V>;

    closed spec fn view(&self) -> Map<Seq<char>, V> {
        pairs_map(self.entries@)
    }
}

impl<V> FieldMap<V> {
    #[verifier::type_invariant]
    spec fn well_formed(self) -> bool {
        distinct_keys(self.entries@)
    }

    /// The keys, in the order in which they are handed out.
    pub closed spec fn key_order(self) -> Seq<Seq<char>> {
        self.entries@.map_values(|e: (String, V)| e.0@)
    }

    /// The empty map.
    pub fn new() -> (m: Self)
        ensures
            m@ == Map::<Seq<char>, V>::empty(),
    {
        FieldMap { entries: Vec::new() }
    }

    fn position(&self, key: &str) -> (at: Option<usize>)
        ensures
            match at {
                Some(i) => i < self.entries@.len() && self.entries@[i as int].0@ == key@,
                None => !self@.dom().contains(key@),
            },
    {
        let mut i: usize = 0;
        while i < self.entries.len()
            invariant
                i <= self.entries@.len(),
                forall|j: int| 0 <= j < i ==> #[trigger] self.entries@[j].0@ != key@,
            decreases self.entries@.len() - i,
        {
            if text_eq(self.entries[i].0.as_str(), key) {
                return Some(i);
            }
            i += 1;
        }
        proof {
            lemma_keys(self.entries@, key@);
        }
        None
    }

    /// The value under `key`.
    pub fn get(&self, key: &str) -> (v: Option<&V>)
        ensures
            match v {
                Some(x) => self@.dom().contains(key@) && *x == self@[key@],
                None => !self@.dom().contains(key@),
            },
    {
        proof {
            use_type_invariant(self);
        }
        match self.position(key) {
            Some(i) => {
                proof {
                    lemma_value(self.entries@, i as int);
                }
                Some(&self.entries[i].1)
            },
            None => None,
        }
    }

    /// Whether `key` has a value.
    pub fn contains_key(&self, key: &str) -> (b: bool)
        ensures
            b == self@.dom().contains(key@),
    {
        self.get(key).is_some()
    }

    /// The number of keys.
    pub fn len(&self) -> (n: usize)
        ensures
            n == self@.dom().len(),
            self@.dom().finite(),
    {
        proof {
            use_type_invariant(self);
            lemma_size(self.entries@);
        }
        self.entries.len()
    }

    /// Whether there is no key.
    pub fn is_empty(&self) -> (b: bool)
        ensures
            b == (self@ == Map::<Seq<char>, V>::empty()),
    {
        proof {
            use_type_invariant(self);
            if self.entries@.len() > 0 {
                lemma_value(self.entries@, 0);
            }
        }
        self.entries.len() == 0
    }

    /// Sets the value under `key`.
    pub fn insert(&mut self, key: String, value: V)
        ensures
            final(self)@ == old(self)@.insert(key@, value),
    {
        proof {
            use_type_invariant(&*self);
        }
        let found = self.position(key.as_str());
        let mut entries: Vec<(String, V)> = Vec::new();
        std::mem::swap(&mut entries, &mut self.entries);
        let ghost before = entries@;
        match found {
            Some(i) => {
                proof {
                    lemma_update(before, i as int, (key, value));
                }
                entries[i] = (key, value);
            },
            None => {
                entries.push((key, value));
                assert(entries@.drop_last() == before);
            },
        }
        self.entries = entries;
    }

    /// Takes the value under `key` out of the map.
    pub fn take(&mut self, key: &str) -> (v: Option<V>)
        ensures
            final(self)@ == old(self)@.remove(key@),
            match v {
                Some(x) => old(self)@.dom().contains(key@) && x == old(self)@[key@],
                None => !old(self)@.dom().contains(key@),
            },
    {
        proof {
            use_type_invariant(&*self);
        }
        let found = self.position(key);
        let mut rest: Vec<(String, V)> = Vec::new();
        std::mem::swap(&mut rest, &mut self.entries);
        let ghost all = rest@;
        match found {
            Some(i) => {
                proof {
                    lemma_value(all, i as int);
                    lemma_remove(all, i as int);
                }
                let taken = rest.remove(i);
                self.entries = rest;
                Some(taken.1)
            },
            None => {
                self.entries = rest;
                assert(self@ =~= old(self)@.remove(key@));
                None
            },
        }
    }

    /// Drops the value under `key`.
    pub fn remove(&mut self, key: &str)
        ensures
            final(self)@ == old(self)@.remove(key@),
    {
        let _ = self.take(key);
    }

    /// Keeps only the keys that occur in `listed`.
    pub fn keep_only(&mut self, listed: &Vec<String>)
        ensures
            final(self)@ == old(self)@.restrict(
                Set::new(|k: Seq<char>| crate::text::views(listed@).contains(k)),
            ),
    {
        proof {
            use_type_invariant(&*self);
        }
        let mut rest: Vec<(String, V)> = Vec::new();
        std::mem::swap(&mut rest, &mut self.entries);
        let mut kept: Vec<(String, V)> = Vec::new();
        let ghost all = pairs_map(rest@);
        let ghost keep = Set::new(|k: Seq<char>| crate::text::views(listed@).contains(k));
        while rest.len() > 0
            invariant
                distinct_keys(rest@),
                distinct_keys(kept@),
                keep == Set::new(|k: Seq<char>| crate::text::views(listed@).contains(k)),
                pairs_map(rest@).dom().disjoint(pairs_map(kept@).dom()),
                all.restrict(keep) =~= pairs_map(rest@).restrict(keep).union_prefer_right(
                    pairs_map(kept@),
                ),
                pairs_map(kept@).dom().subset_of(keep),
            decreases rest@.len(),
        {
            let ghost whole = rest@;
            let ghost held = kept@;
            let last = rest.pop().unwrap();
            let stays: bool = contains_text(listed, last.0.as_str());
            assert(rest@ == whole.drop_last());
            if stays {
                kept.push(last);
                assert(kept@.drop_last() == held);
            }
        }
        assert(pairs_map(kept@) =~= all.restrict(keep));
        self.entries = kept;
    }

    /// The number of entries that [`Self::entry`] hands out: every key once.
    pub fn entry_count(&self) -> (n: usize)
        ensures
            n == self.key_order().len(),
            self.key_order().no_duplicates(),
            forall|k: Seq<char>| #[trigger]
                self.key_order().contains(k) == self@.dom().contains(k),
    {
        proof {
            use_type_invariant(self);
            let pairs = self.entries@;
            assert forall|i: int, j: int| 0 <= i < j < pairs.len() implies pairs[i].0@
                != pairs[j].0@ by {
                lemma_order(pairs, i, j);
            }
            assert forall|k: Seq<char>| #[trigger]
                self.key_order().contains(k) == self@.dom().contains(k) by {
                lemma_keys(pairs, k);
                if self@.dom().contains(k) {
                    let i = choose|i: int| 0 <= i < pairs.len() && #[trigger] pairs[i].0@ == k;
                    assert(self.key_order()[i] == k);
                }
                if self.key_order().contains(k) {
                    let i = choose|i: int| 0 <= i < pairs.len() && self.key_order()[i] == k;
                    assert(pairs[i].0@ == k);
                }
            }
        }
        self.entries.len()
    }

    /// The `i`th key with its value.
    pub fn entry(&self, i: usize) -> (e: (&String, &V))
        requires
            i < self.key_order().len(),
        ensures
            e.0@ == self.key_order()[i as int],
            self@.dom().contains(e.0@),
            self@[e.0@] == *e.1,
    {
        proof {
            use_type_invariant(self);
            lemma_value(self.entries@, i as int);
        }
        (&self.entries[i].0, &self.entries[i].1)
    }
}

impl<V: Copy> FieldMap<V> {
    /// Sets every key of `other` to its value there.
    pub fn absorb(&mut self, other: &FieldMap<V>)
        ensures
            final(self)@ == old(self)@.union_prefer_right(other@),
    {
        let mut i: usize = 0;
        assert(pairs_map(other.entries@.take(0)) =~= Map::<Seq<char>, V>::empty());
        while i < other.entries.len()
            invariant
                i <= other.entries@.len(),
                self@ =~= old(self)@.union_prefer_right(pairs_map(other.entries@.take(i as int))),
            decreases other.entries@.len() - i,
        {
            let ghost now = other.entries@.take(i + 1);
            assert(now.drop_last() == other.entries@.take(i as int));
            self.insert(other.entries[i].0.clone(), other.entries[i].1);
            i += 1;
        }
        assert(other.entries@.take(other.entries@.len() as int) == other.entries@);
    }

    /// A map with the same keys and values.
    pub fn copied(&self) -> (m: FieldMap<V>)
        ensures
            m@ == self@,
    {
        let mut m: FieldMap<V> = FieldMap::new();
        m.absorb(self);
        assert(m@ =~= self@);
        m
    }
}

/// Whether `listed` holds the text `key`.
pub fn contains_text(listed: &Vec<String>, key: &str) -> (b: bool)
    ensures
        b == crate::text::views(listed@).contains(key@),
{
    let mut i: usize = 0;
    while i < listed.len()
        invariant
            i <= listed@.len(),
            forall|j: int| 0 <= j < i ==> #[trigger] listed@[j]@ != key@,
        decreases listed@.len() - i,
    {
        if text_eq(listed[i].as_str(), key) {
            assert(crate::text::views(listed@)[i as int] == key@);
            return true;
        }
        i += 1;
    }
    proof {
        if crate::text::views(listed@).contains(key@) {
            let j = choose|j: int|
                0 <= j < listed@.len() && crate::text::views(listed@)[j] == key@;
            assert(listed@[j]@ == key@);
        }
    }
    false
}

/// Two lists of pairs together stand for the pairs of both, and of two pairs with one key the one
/// in the later list counts.
pub proof fn law_later_pairs_win<V>(a: Seq<(String, V)>, b: Seq<(String, V)>)
    ensures
        pairs_map(a + b) == pairs_map(a).union_prefer_right(pairs_map(b)),
        pairs_map(Seq::<(String, V)>::empty()) == Map::<Seq<char>, V>::empty(),
        forall|key: String, value: V| #[trigger]
            pairs_map(seq![(key, value)]) == map![key@ => value],
    decreases b.len(),
{
    if b.len() == 0 {
        assert(a + b =~= a);
        assert(pairs_map(a).union_prefer_right(pairs_map(b)) =~= pairs_map(a));
    } else {
        law_later_pairs_win(a, b.drop_last());
        assert((a + b).drop_last() =~= a + b.drop_last());
        assert(pairs_map(a + b) =~= pairs_map(a).union_prefer_right(pairs_map(b)));
    }
    assert forall|key: String, value: V| #[trigger]
        pairs_map(seq![(key, value)]) == map![key@ => value] by {
        let one = seq![(key, value)];
        assert(one.drop_last() =~= Seq::<(String, V)>::empty());
        assert(pairs_map(one.drop_last()) == Map::<Seq<char>, V>::empty());
        assert(pairs_map(one) =~= map![key@ => value]);
    }
}

} // verus!
