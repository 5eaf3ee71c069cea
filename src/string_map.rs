//! A finite map from strings to strings that remembers the order in which keys first came.

use vstd::prelude::*;

verus! {

/// The map that a list of key/value pairs builds when they are inserted in order:
/// a later pair replaces an earlier one with the same key.
pub open spec fn map_of(s: Seq<(Seq<char>, Seq<char>)>) -> Map<Seq<char>, Seq<char>>
    decreases s.len(),
{
    if s.len() == 0 {
        Map::empty()
    } else {
        map_of(s.drop_last()).insert(s.last().0, s.last().1)
    }
}

/// No key occurs twice in `s`.
pub open spec fn unique_keys(s: Seq<(Seq<char>, Seq<char>)>) -> bool {
    forall|i: int, j: int| 0 <= i < s.len() && 0 <= j < s.len() && i != j ==> s[i].0 != s[j].0
}

/// A key is in the built map exactly when some pair carries it.
pub proof fn lemma_map_of_dom(s: Seq<(Seq<char>, Seq<char>)>, k: Seq<char>)
    ensures
        map_of(s).dom().contains(k) <==> exists|j: int| 0 <= j < s.len() && s[j].0 == k,
    decreases s.len(),
{
    if s.len() > 0 {
        lemma_map_of_dom(s.drop_last(), k);
        if map_of(s.drop_last()).dom().contains(k) {
            let j = choose|j: int| 0 <= j < s.len() - 1 && s.drop_last()[j].0 == k;
            assert(s[j].0 == k);
        }
        if exists|j: int| 0 <= j < s.len() && s[j].0 == k {
            let j = choose|j: int| 0 <= j < s.len() && s[j].0 == k;
            if j < s.len() - 1 {
                assert(s.drop_last()[j].0 == k);
            }
        }
    }
}

/// With unique keys, each pair's value is what the built map holds for its key.
pub proof fn lemma_map_of_at(s: Seq<(Seq<char>, Seq<char>)>, j: int)
    requires
        unique_keys(s),
        0 <= j < s.len(),
    ensures
        map_of(s).dom().contains(s[j].0),
        map_of(s)[s[j].0] == s[j].1,
    decreases s.len(),
{
    if j < s.len() - 1 {
        let t = s.drop_last();
        assert(t[j] == s[j]);
        lemma_map_of_at(t, j);
        assert(s.last().0 != s[j].0);
    }
}

/// With unique keys, replacing the value of one pair replaces it in the built map.
pub proof fn lemma_map_of_update(s: Seq<(Seq<char>, Seq<char>)>, j: int, v: Seq<char>)
    requires
        unique_keys(s),
        0 <= j < s.len(),
    ensures
        map_of(s.update(j, (s[j].0, v))) == map_of(s).insert(s[j].0, v),
    decreases s.len(),
{
    let u = s.update(j, (s[j].0, v));
    if j == s.len() - 1 {
        assert(u.drop_last() =~= s.drop_last());
        assert(map_of(u) =~= map_of(s).insert(s[j].0, v));
    } else {
        let t = s.drop_last();
        assert(t[j] == s[j]);
        assert(u.drop_last() =~= t.update(j, (t[j].0, v)));
        lemma_map_of_update(t, j, v);
        assert(s.last().0 != s[j].0);
        assert(map_of(u) =~= map_of(s).insert(s[j].0, v));
    }
}

/// Key/value pairs with distinct keys, in the order in which each key was first inserted.
pub struct StringMap {
    entries: Vec<(String, String)>,
}

impl StringMap {
    /// The pairs, as character sequences.
    pub closed spec fn pairs(&self) -> Seq<(Seq<char>, Seq<char>)> {
        self.entries@.map_values(|p: (String, String)| (p.0@, p.1@))
    }

    #[verifier::type_invariant]
    spec fn wf(&self) -> bool {
        unique_keys(self.pairs())
    }

    /// An empty map.
    pub fn new() -> (r: StringMap)
        ensures
            r@ == Map::<Seq<char>, Seq<char>>::empty(),
    {
        let r = StringMap { entries: Vec::new() };
        assert(r.pairs() =~= Seq::empty());
        r
    }

    /// The position of the pair with key `key`, if there is one.
    fn find(&self, key: &String) -> (r: Option<usize>)
        ensures
            match r {
                Some(j) => j < self.pairs().len() && self.pairs()[j as int].0 == key@,
                None => forall|j: int| 0 <= j < self.pairs().len() ==> self.pairs()[j].0 != key@,
            },
    {
        for i in 0..self.entries.len()
            invariant
                forall|j: int| 0 <= j < i ==> self.pairs()[j].0 != key@,
        {
            if self.entries[i].0 == *key {
                return Some(i);
            }
        }
        None
    }

    /// Whether `key` is present.
    pub fn contains_key(&self, key: &String) -> (r: bool)
        ensures
            r == self@.dom().contains(key@),
    {
        proof {
            lemma_map_of_dom(self.pairs(), key@);
        }
        self.find(key).is_some()
    }

    /// The value stored under `key`, if any.
    pub fn get(&self, key: &String) -> (r: Option<&String>)
        ensures
            match r {
                Some(v) => self@.dom().contains(key@) && self@[key@] == v@,
                None => !self@.dom().contains(key@),
            },
    {
        proof {
            use_type_invariant(self);
            lemma_map_of_dom(self.pairs(), key@);
        }
        match self.find(key) {
            Some(j) => {
                proof {
                    lemma_map_of_at(self.pairs(), j as int);
                }
                Some(&self.entries[j].1)
            },
            None => None,
        }
    }

    /// The number of keys.
    pub fn len(&self) -> (r: usize)
        ensures
            r == self@.dom().len(),
    {
        proof {
            use_type_invariant(self);
            lemma_unique_len(self.pairs());
        }
        self.entries.len()
    }

    /// Stores `value` under `key`, replacing what was there.
    pub fn insert(&mut self, key: String, value: String)
        ensures
            final(self)@ == old(self)@.insert(key@, value@),
    {
        proof {
            use_type_invariant(&*self);
        }
        let ghost before = self.pairs();
        let found = self.find(&key);
        let mut taken = StringMap::new();
        core::mem::swap(self, &mut taken);
        let StringMap { entries: mut entries } = taken;
        assert(entries@.map_values(|p: (String, String)| (p.0@, p.1@)) == before);
        match found {
            Some(j) => {
                proof {
                    lemma_map_of_update(before, j as int, value@);
                }
                entries.set(j, (key, value));
                let ghost after = entries@.map_values(|p: (String, String)| (p.0@, p.1@));
                assert(after =~= before.update(j as int, (before[j as int].0, value@)));
                assert(forall|i: int| 0 <= i < before.len() ==> after[i].0 == before[i].0);
            },
            None => {
                entries.push((key, value));
                let ghost after = entries@.map_values(|p: (String, String)| (p.0@, p.1@));
                assert(after.drop_last() =~= before);
                assert(forall|i: int| 0 <= i < before.len() ==> after[i] == before[i]);
                assert(unique_keys(after)) by {
                    assert forall|i: int, k: int|
                        0 <= i < after.len() && 0 <= k < after.len() && i != k implies after[i].0
                        != after[k].0 by {
                        if i < before.len() && k < before.len() {
                            assert(after[i] == before[i] && after[k] == before[k]);
                        } else if i < before.len() {
                            assert(after[i] == before[i]);
                        } else {
                            assert(after[k] == before[k]);
                        }
                    }
                }
            },
        }
        *self = StringMap { entries };
    }

    /// The pairs, in order.
    pub fn entries(&self) -> (r: &Vec<(String, String)>)
        ensures
            r@.map_values(|p: (String, String)| (p.0@, p.1@)) == self.pairs(),
    {
        &self.entries
    }
}

impl View for StringMap {
    type V = Map<Seq<char>, Seq<char>>;

    open spec fn view(&self) -> Map<Seq<char>, Seq<char>> {
        map_of(self.pairs())
    }
}

/// With unique keys, the built map has one key per pair.
pub proof fn lemma_unique_len(s: Seq<(Seq<char>, Seq<char>)>)
    requires
        unique_keys(s),
    ensures
        map_of(s).dom().len() == s.len(),
        map_of(s).dom().finite(),
    decreases s.len(),
{
    if s.len() > 0 {
        let t = s.drop_last();
        assert(unique_keys(t));
        lemma_unique_len(t);
        lemma_map_of_dom(t, s.last().0);
        if map_of(t).dom().contains(s.last().0) {
            let j = choose|j: int| 0 <= j < t.len() && t[j].0 == s.last().0;
            assert(s[j].0 == s[s.len() - 1].0);
        }
    }
}

} // verus!
