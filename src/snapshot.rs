use vstd::prelude::*;

verus! {

/// A mapping of string keys to string values, over their views.
pub type KeyValues = Map<Seq<char>, Seq<char>>;

/// The map that a sequence of key-value pairs describes when the pairs are
/// inserted in turn: a later pair replaces an earlier one with the same key.
pub open spec fn pairs_map(s: Seq<(Seq<char>, Seq<char>)>) -> KeyValues
    decreases s.len(),
{
    if s.len() == 0 {
        Map::empty()
    } else {
        pairs_map(s.drop_last()).insert(s.last().0, s.last().1)
    }
}

/// No two pairs of `s` carry the same key.
pub open spec fn keys_unique(s: Seq<(Seq<char>, Seq<char>)>) -> bool {
    forall|i: int, j: int|
        0 <= i < s.len() && 0 <= j < s.len() && i != j ==> #[trigger] s[i].0 != #[trigger] s[j].0
}

/// The pairs of views of a sequence of string pairs.
pub open spec fn pair_views(s: Seq<(String, String)>) -> Seq<(Seq<char>, Seq<char>)> {
    s.map_values(|p: (String, String)| (p.0@, p.1@))
}

/// What a map holds for `k`, as an `Option`.
pub open spec fn lookup(m: KeyValues, k: Seq<char>) -> Option<Seq<char>> {
    if m.contains_key(k) {
        Some(m[k])
    } else {
        None
    }
}

/// The view of an optional string.
pub open spec fn opt_view(o: Option<String>) -> Option<Seq<char>> {
    match o {
        Some(s) => Some(s@),
        None => None,
    }
}

/// A key has an entry in `pairs_map(s)` exactly when some pair of `s` carries it.
pub proof fn lemma_pairs_map_domain(s: Seq<(Seq<char>, Seq<char>)>)
    ensures
        pairs_map(s).dom().finite(),
        forall|k: Seq<char>|
            #[trigger] pairs_map(s).contains_key(k) <==> exists|i: int|
                0 <= i < s.len() && s[i].0 == k,
    decreases s.len(),
{
    if s.len() > 0 {
        let p = s.drop_last();
        lemma_pairs_map_domain(p);
        assert forall|k: Seq<char>|
            #[trigger] pairs_map(s).contains_key(k) <==> exists|i: int|
                0 <= i < s.len() && s[i].0 == k by {
            if pairs_map(s).contains_key(k) {
                if k == s.last().0 {
                    assert(s[s.len() - 1].0 == k);
                } else {
                    let i = choose|i: int| 0 <= i < p.len() && p[i].0 == k;
                    assert(s[i].0 == k);
                }
            }
            if exists|i: int| 0 <= i < s.len() && s[i].0 == k {
                let i = choose|i: int| 0 <= i < s.len() && s[i].0 == k;
                if i < s.len() - 1 {
                    assert(p[i].0 == k);
                }
            }
        }
    }
}

/// Dropping the last pair keeps the keys unique.
proof fn lemma_unique_drop_last(s: Seq<(Seq<char>, Seq<char>)>)
    requires
        keys_unique(s),
        s.len() > 0,
    ensures
        keys_unique(s.drop_last()),
{
    let p = s.drop_last();
    assert forall|i: int, j: int|
        0 <= i < p.len() && 0 <= j < p.len() && i != j implies #[trigger] p[i].0
        != #[trigger] p[j].0 by {
        assert(p[i] == s[i] && p[j] == s[j]);
    }
}

/// With unique keys, each pair's key maps to that pair's value.
pub proof fn lemma_pairs_map_value(s: Seq<(Seq<char>, Seq<char>)>, i: int)
    requires
        keys_unique(s),
        0 <= i < s.len(),
    ensures
        pairs_map(s).contains_key(s[i].0),
        pairs_map(s)[s[i].0] == s[i].1,
    decreases s.len(),
{
    lemma_pairs_map_domain(s);
    if i < s.len() - 1 {
        let p = s.drop_last();
        lemma_unique_drop_last(s);
        lemma_pairs_map_value(p, i);
        assert(p[i] == s[i]);
        assert(s[i].0 != s[s.len() - 1].0);
    }
}

/// With unique keys, the map has one entry per pair.
pub proof fn lemma_pairs_map_len(s: Seq<(Seq<char>, Seq<char>)>)
    requires
        keys_unique(s),
    ensures
        pairs_map(s).len() == s.len(),
    decreases s.len(),
{
    if s.len() > 0 {
        let p = s.drop_last();
        lemma_unique_drop_last(s);
        lemma_pairs_map_len(p);
        lemma_pairs_map_domain(p);
        if pairs_map(p).contains_key(s.last().0) {
            let i = choose|i: int| 0 <= i < p.len() && p[i].0 == s.last().0;
            assert(s[i].0 == s[s.len() - 1].0);
        }
    }
}

/// Replacing the value of one pair, with unique keys, replaces it in the map.
pub proof fn lemma_pairs_map_update(s: Seq<(Seq<char>, Seq<char>)>, i: int, v: Seq<char>)
    requires
        keys_unique(s),
        0 <= i < s.len(),
    ensures
        keys_unique(s.update(i, (s[i].0, v))),
        pairs_map(s.update(i, (s[i].0, v))) == pairs_map(s).insert(s[i].0, v),
{
    let k = s[i].0;
    let t = s.update(i, (k, v));
    assert forall|j: int| 0 <= j < t.len() implies #[trigger] t[j].0 == s[j].0 by {}
    assert(keys_unique(t));
    lemma_pairs_map_domain(s);
    lemma_pairs_map_domain(t);
    assert forall|x: Seq<char>| #[trigger]
        pairs_map(t).contains_key(x) <==> pairs_map(s).insert(k, v).contains_key(x) by {
        if pairs_map(s).contains_key(x) {
            let j = choose|j: int| 0 <= j < s.len() && s[j].0 == x;
            assert(t[j].0 == x);
        }
        if pairs_map(t).contains_key(x) {
            let j = choose|j: int| 0 <= j < t.len() && t[j].0 == x;
            assert(s[j].0 == x);
        }
        if x == k {
            assert(t[i].0 == x);
        }
    }
    assert forall|x: Seq<char>| #[trigger] pairs_map(t).contains_key(x) implies pairs_map(t)[x]
        == pairs_map(s).insert(k, v)[x] by {
        let j = choose|j: int| 0 <= j < t.len() && t[j].0 == x;
        lemma_pairs_map_value(t, j);
        if j != i {
            lemma_pairs_map_value(s, j);
        }
    }
    assert(pairs_map(t) =~= pairs_map(s).insert(k, v));
}

/// Appending a pair with a new key inserts it into the map.
pub proof fn lemma_pairs_map_push(s: Seq<(Seq<char>, Seq<char>)>, k: Seq<char>, v: Seq<char>)
    requires
        keys_unique(s),
        forall|j: int| 0 <= j < s.len() ==> s[j].0 != k,
    ensures
        keys_unique(s.push((k, v))),
        pairs_map(s.push((k, v))) == pairs_map(s).insert(k, v),
{
    let t = s.push((k, v));
    assert(t.drop_last() =~= s);
    assert forall|i: int, j: int|
        0 <= i < t.len() && 0 <= j < t.len() && i != j implies #[trigger] t[i].0
        != #[trigger] t[j].0 by {
        if i < s.len() && j < s.len() {
            assert(t[i] == s[i] && t[j] == s[j]);
        } else if i < s.len() {
            assert(t[i] == s[i]);
        } else {
            assert(t[j] == s[j]);
        }
    }
}

/// Removing a pair, with unique keys, removes its key from the map.
pub proof fn lemma_pairs_map_remove(s: Seq<(Seq<char>, Seq<char>)>, i: int)
    requires
        keys_unique(s),
        0 <= i < s.len(),
    ensures
        keys_unique(s.remove(i)),
        pairs_map(s.remove(i)) == pairs_map(s).remove(s[i].0),
{
    let k = s[i].0;
    let t = s.remove(i);
    assert forall|j: int| 0 <= j < t.len() implies #[trigger] t[j] == (if j < i {
        s[j]
    } else {
        s[j + 1]
    }) by {}
    assert forall|a: int, b: int|
        0 <= a < t.len() && 0 <= b < t.len() && a != b implies #[trigger] t[a].0
        != #[trigger] t[b].0 by {
        let a2 = if a < i { a } else { a + 1 };
        let b2 = if b < i { b } else { b + 1 };
        assert(t[a] == s[a2] && t[b] == s[b2]);
    }
    lemma_pairs_map_domain(s);
    lemma_pairs_map_domain(t);
    assert forall|x: Seq<char>| #[trigger]
        pairs_map(t).contains_key(x) <==> pairs_map(s).remove(k).contains_key(x) by {
        if pairs_map(t).contains_key(x) {
            let j = choose|j: int| 0 <= j < t.len() && t[j].0 == x;
            let j2 = if j < i { j } else { j + 1 };
            assert(s[j2].0 == x);
            assert(j2 != i);
        }
        if pairs_map(s).remove(k).contains_key(x) {
            let j = choose|j: int| 0 <= j < s.len() && s[j].0 == x;
            assert(j != i);
            let j2 = if j < i { j } else { j - 1 };
            assert(t[j2].0 == x);
        }
    }
    assert forall|x: Seq<char>| #[trigger] pairs_map(t).contains_key(x) implies pairs_map(t)[x]
        == pairs_map(s).remove(k)[x] by {
        let j = choose|j: int| 0 <= j < t.len() && t[j].0 == x;
        let j2 = if j < i { j } else { j + 1 };
        lemma_pairs_map_value(t, j);
        lemma_pairs_map_value(s, j2);
    }
    assert(pairs_map(t) =~= pairs_map(s).remove(k));
}

/// A complete, finite key-value mapping, as a backend's `load_all` returns it.
pub struct Snapshot {
    entries: Vec<(String, String)>,
}

impl View for Snapshot {
    type V = KeyValues;

    closed spec fn view(&self) -> KeyValues {
        pairs_map(pair_views(self.entries@))
    }
}

impl Snapshot {
    #[verifier::type_invariant]
    spec fn inv(&self) -> bool {
        keys_unique(pair_views(self.entries@))
    }

    /// The empty mapping.
    pub fn new() -> (r: Self)
        ensures
            r@ == KeyValues::empty(),
    {
        let r = Snapshot { entries: Vec::new() };
        assert(pair_views(r.entries@) =~= Seq::empty());
        r
    }

    /// The index of the entry for `key`, if there is one.
    fn find(&self, key: &String) -> (r: Option<usize>)
        ensures
            match r {
                Some(i) => i < self.entries@.len() && self.entries@[i as int].0@ == key@,
                None => forall|i: int|
                    0 <= i < self.entries@.len() ==> self.entries@[i].0@ != key@,
            },
    {
        let mut i: usize = 0;
        while i < self.entries.len()
            invariant
                i <= self.entries@.len(),
                forall|j: int| 0 <= j < i ==> self.entries@[j].0@ != key@,
            decreases self.entries@.len() - i,
        {
            if self.entries[i].0 == *key {
                return Some(i);
            }
            i = i + 1;
        }
        None
    }

    /// The view of the entries at `i`, for proofs that look at one entry.
    proof fn lemma_entry(&self, i: int)
        requires
            0 <= i < self.entries@.len(),
        ensures
            pair_views(self.entries@)[i] == (self.entries@[i].0@, self.entries@[i].1@),
    {
    }

    /// The number of entries.
    pub fn len(&self) -> (r: usize)
        ensures
            r == self@.len(),
            self@.dom().finite(),
    {
        proof {
            use_type_invariant(self);
            lemma_pairs_map_len(pair_views(self.entries@));
            lemma_pairs_map_domain(pair_views(self.entries@));
        }
        self.entries.len()
    }

    /// Whether there are no entries.
    pub fn is_empty(&self) -> (r: bool)
        ensures
            r == (self@.len() == 0),
            self@.dom().finite(),
    {
        self.len() == 0
    }

    /// Whether `key` has an entry.
    pub fn contains_key(&self, key: &String) -> (r: bool)
        ensures
            r == self@.contains_key(key@),
    {
        proof {
            lemma_pairs_map_domain(pair_views(self.entries@));
        }
        match self.find(key) {
            Some(i) => {
                proof {
                    self.lemma_entry(i as int);
                }
                true
            },
            None => {
                proof {
                    if self@.contains_key(key@) {
                        let i = choose|i: int|
                            0 <= i < pair_views(self.entries@).len() && pair_views(
                                self.entries@,
                            )[i].0 == key@;
                        self.lemma_entry(i);
                    }
                }
                false
            },
        }
    }

    /// The value stored for `key`, if any.
    pub fn get(&self, key: &String) -> (r: Option<&String>)
        ensures
            match r {
                Some(v) => lookup(self@, key@) == Some(v@),
                None => lookup(self@, key@) == None::<Seq<char>>,
            },
    {
        proof {
            use_type_invariant(self);
            lemma_pairs_map_domain(pair_views(self.entries@));
        }
        match self.find(key) {
            Some(i) => {
                proof {
                    self.lemma_entry(i as int);
                    lemma_pairs_map_value(pair_views(self.entries@), i as int);
                }
                Some(&self.entries[i].1)
            },
            None => {
                proof {
                    if self@.contains_key(key@) {
                        let i = choose|i: int|
                            0 <= i < pair_views(self.entries@).len() && pair_views(
                                self.entries@,
                            )[i].0 == key@;
                        self.lemma_entry(i);
                    }
                }
                None
            },
        }
    }

    /// Moves the entries out, leaving none behind.
    fn take_entries(&mut self) -> (r: Vec<(String, String)>)
        ensures
            r@ == old(self).entries@,
            final(self).entries@.len() == 0,
    {
        let mut r: Vec<(String, String)> = Vec::new();
        core::mem::swap(&mut self.entries, &mut r);
        r
    }

    /// Moves `entries`, whose keys are unique, in.
    fn put_entries(&mut self, entries: Vec<(String, String)>)
        requires
            keys_unique(pair_views(entries@)),
        ensures
            final(self).entries@ == entries@,
    {
        let mut entries = entries;
        core::mem::swap(&mut self.entries, &mut entries);
    }

    /// Sets the value of `key`, replacing any earlier one.
    pub fn insert(&mut self, key: String, value: String)
        ensures
            final(self)@ == old(self)@.insert(key@, value@),
    {
        proof {
            use_type_invariant(&*self);
        }
        let ghost s = pair_views(self.entries@);
        match self.find(&key) {
            Some(i) => {
                proof {
                    self.lemma_entry(i as int);
                    lemma_pairs_map_update(s, i as int, value@);
                }
                let mut entries = self.take_entries();
                entries.set(i, (key, value));
                assert(pair_views(entries@) =~= s.update(i as int, (s[i as int].0, value@)));
                self.put_entries(entries);
            },
            None => {
                proof {
                    assert forall|j: int| 0 <= j < s.len() implies s[j].0 != key@ by {
                        self.lemma_entry(j);
                    }
                    lemma_pairs_map_push(s, key@, value@);
                }
                let mut entries = self.take_entries();
                entries.push((key, value));
                assert(pair_views(entries@) =~= s.push((key@, value@)));
                self.put_entries(entries);
            },
        }
    }

    /// Takes out the entry for `key`, returning its value.
    pub fn remove(&mut self, key: &String) -> (r: Option<String>)
        ensures
            final(self)@ == old(self)@.remove(key@),
            opt_view(r) == lookup(old(self)@, key@),
    {
        proof {
            use_type_invariant(&*self);
            lemma_pairs_map_domain(pair_views(self.entries@));
        }
        let ghost s = pair_views(self.entries@);
        match self.find(key) {
            Some(i) => {
                proof {
                    self.lemma_entry(i as int);
                    lemma_pairs_map_remove(s, i as int);
                    lemma_pairs_map_value(s, i as int);
                }
                let mut entries = self.take_entries();
                let (_, v) = entries.remove(i);
                assert(pair_views(entries@) =~= s.remove(i as int));
                self.put_entries(entries);
                Some(v)
            },
            None => {
                proof {
                    if pairs_map(s).contains_key(key@) {
                        let j = choose|j: int| 0 <= j < s.len() && s[j].0 == key@;
                        self.lemma_entry(j);
                    }
                    assert(pairs_map(s).remove(key@) =~= pairs_map(s));
                }
                None
            },
        }
    }

    /// The mapping that `pairs` describe when inserted in turn, so that a
    /// later pair replaces an earlier one with the same key.
    pub fn from_pairs(pairs: Vec<(String, String)>) -> (r: Self)
        ensures
            r@ == pairs_map(pair_views(pairs@)),
    {
        let mut r = Snapshot::new();
        let ghost all = pair_views(pairs@);
        let n = pairs.len();
        let mut i: usize = 0;
        while i < n
            invariant
                n == all.len(),
                n == pairs@.len(),
                all == pair_views(pairs@),
                i <= n,
                r@ == pairs_map(all.take(i as int)),
            decreases n - i,
        {
            let k = pairs[i].0.clone();
            let v = pairs[i].1.clone();
            assert(all.take(i + 1).drop_last() =~= all.take(i as int));
            r.insert(k, v);
            i = i + 1;
        }
        assert(all.take(n as int) =~= all);
        r
    }

    /// The entries, each key once, in no particular order.
    pub fn entries(&self) -> (r: &Vec<(String, String)>)
        ensures
            pairs_map(pair_views(r@)) == self@,
            keys_unique(pair_views(r@)),
    {
        proof {
            use_type_invariant(self);
        }
        &self.entries
    }
}

} // verus!
