use vstd::prelude::*;


verus! {

/// The process-wide table that lets every handle for one key share one state.
///
/// Each key (a lock file's path) has at most one entry; an entry is whatever
/// the process keeps to reach the shared state (a weak reference, so that the
/// state goes away with its last handle).
pub struct Registry<W> {
    entries: Vec<(String, W)>,
}

/// No key occurs twice in the entries.
pub open spec fn distinct_keys<W>(entries: Seq<(String, W)>) -> bool {
    forall|i: int, j: int|
        #![trigger entries[i], entries[j]]
        0 <= i < j < entries.len() ==> entries[i].0@ != entries[j].0@
}

impl<W> Registry<W> {
    #[verifier::type_invariant]
    closed spec fn keys_distinct(&self) -> bool {
        distinct_keys(self.entries@)
    }

    closed spec fn has_key(&self, k: Seq<char>) -> bool {
        exists|i: int| 0 <= i < self.entries@.len() && #[trigger] self.entries@[i].0@ == k
    }

    /// The table as a map from keys to entries.
    pub closed spec fn entries_map(&self) -> Map<Seq<char>, W> {
        Map::new(
            |k: Seq<char>| self.has_key(k),
            |k: Seq<char>|
                self.entries@[choose|i: int|
                    0 <= i < self.entries@.len() && #[trigger] self.entries@[i].0@ == k].1,
        )
    }

    proof fn lemma_index_is_entry(&self, i: int)
        requires
            distinct_keys(self.entries@),
            0 <= i < self.entries@.len(),
        ensures
            self.entries_map().contains_key(self.entries@[i].0@),
            self.entries_map()[self.entries@[i].0@] == self.entries@[i].1,
    {
        let k = self.entries@[i].0@;
        assert(self.has_key(k));
        let j = choose|j: int| 0 <= j < self.entries@.len() && #[trigger] self.entries@[j].0@ == k;
        if j < i {
            assert(self.entries@[j].0@ != self.entries@[i].0@);
        } else if i < j {
            assert(self.entries@[i].0@ != self.entries@[j].0@);
        }
    }

    /// An empty table.
    pub fn new() -> (r: Self)
        ensures
            r.entries_map() == Map::<Seq<char>, W>::empty(),
    {
        let r = Registry { entries: Vec::new() };
        assert(distinct_keys(r.entries@));
        assert(r.entries_map() =~= Map::<Seq<char>, W>::empty());
        r
    }

    /// The position of `key` in the table, if it has an entry.
    fn find(&self, key: &String) -> (r: Option<usize>)
        ensures
            match r {
                Some(i) => i < self.entries@.len() && self.entries@[i as int].0@ == key@,
                None => !self.has_key(key@),
            },
    {
        let n = self.entries.len();
        for i in 0..n
            invariant
                n == self.entries@.len(),
                forall|j: int| 0 <= j < i ==> self.entries@[j].0@ != key@,
        {
            if self.entries[i].0 == *key {
                return Some(i);
            }
        }
        None
    }

    /// The entry for `key`, if the table has one.
    pub fn get(&self, key: &String) -> (r: Option<&W>)
        ensures
            match r {
                Some(w) => self.entries_map().contains_key(key@) && self.entries_map()[key@] == *w,
                None => !self.entries_map().contains_key(key@),
            },
    {
        match self.find(key) {
            Some(i) => {
                proof {
                    use_type_invariant(self);
                    self.lemma_index_is_entry(i as int);
                }
                Some(&self.entries[i].1)
            },
            None => None,
        }
    }

    /// Makes `w` the entry for `key`, replacing any former one.
    pub fn insert(&mut self, key: String, w: W)
        ensures
            final(self).entries_map() == old(self).entries_map().insert(key@, w),
    {
        proof {
            use_type_invariant(&*self);
        }
        let ghost old_self = *self;
        let ghost k = key@;
        let pos = self.find(&key);
        let ghost pos_g = pos;
        let mut entries = Vec::new();
        std::mem::swap(&mut entries, &mut self.entries);
        match pos {
            Some(i) => {
                entries.set(i, (key, w));
            },
            None => {
                entries.push((key, w));
            },
        }
        proof {
            let s = entries@;
            let o = old_self.entries@;
            assert(distinct_keys(s)) by {
                assert forall|a: int, b: int| 0 <= a < b < s.len() implies #[trigger] s[a].0@
                    != #[trigger] s[b].0@ by {
                    if pos_g is None {
                        if b == o.len() {
                            assert(o[a] == s[a]);
                            assert(old_self.has_key(o[a].0@));
                        }
                    }
                }
            }
        }
        self.entries = entries;
        proof {
            let o = old_self.entries@;
            let s = self.entries@;
            let expected = old_self.entries_map().insert(k, w);
            let got = self.entries_map();
            assert forall|x: Seq<char>| #[trigger] got.contains_key(x) <==> expected.contains_key(x) by {
                if got.contains_key(x) {
                    let j = choose|j: int| 0 <= j < s.len() && #[trigger] s[j].0@ == x;
                    if x != k {
                        assert(o[j] == s[j]);
                        assert(old_self.has_key(x));
                    }
                }
                if expected.contains_key(x) {
                    if x == k {
                        match pos_g {
                            Some(i) => { assert(s[i as int].0@ == k); },
                            None => { assert(s[o.len() as int].0@ == k); },
                        }
                        assert(self.has_key(x));
                    } else {
                        let j = choose|j: int| 0 <= j < o.len() && #[trigger] o[j].0@ == x;
                        assert(s[j] == o[j]);
                        assert(self.has_key(x));
                    }
                }
            }
            assert forall|x: Seq<char>| #[trigger] got.contains_key(x) implies got[x] == expected[x] by {
                let j = choose|j: int| 0 <= j < s.len() && #[trigger] s[j].0@ == x;
                self.lemma_index_is_entry(j);
                if x == k {
                    match pos_g {
                        Some(i) => { self.lemma_index_is_entry(i as int); },
                        None => { self.lemma_index_is_entry(o.len() as int); },
                    }
                } else {
                    assert(o[j] == s[j]);
                    old_self.lemma_index_is_entry(j);
                }
            }
            assert(got =~= expected);
        }
    }

    /// The first step of opening a lock: the live state registered for
    /// `key`, or, when there is no entry or its state is gone, a vacancy for
    /// `key` that [`Registry::register`] fills once a new state is opened.
    ///
    /// `upgrade` tells whether an entry's state is still live, and hands it
    /// out. Only a vacancy lets the caller open and register a new state, so
    /// a live state is never opened twice.
    pub fn lookup<S>(&self, key: String, upgrade: impl Fn(&W) -> Option<S>) -> (r: Lookup<S>)
        requires
            forall|w: &W| call_requires(upgrade, (w,)),
        ensures
            looked_up(self.entries_map(), key@, upgrade, r),
    {
        match self.get(&key) {
            Some(w) => {
                match upgrade(w) {
                    Some(st) => {
                        return Lookup::Live(st);
                    },
                    None => {},
                }
            },
            None => {},
        }
        Lookup::Vacant(Vacancy { key })
    }

    /// The second step of opening a lock: registers the state just opened for
    /// a vacancy, through the entry that `downgrade` makes of it. Every other
    /// key's entry stays as it was.
    pub fn register<S>(&mut self, vacancy: Vacancy, st: &S, downgrade: impl Fn(&S) -> W)
        requires
            call_requires(downgrade, (st,)),
        ensures
            exists|w: W|
                call_ensures(downgrade, (st,), w) && final(self).entries_map() == old(
                    self,
                ).entries_map().insert(vacancy.key(), w),
    {
        let ghost before = self.entries_map();
        let ghost k = vacancy.key();
        let w = downgrade(st);
        let ghost made = w;
        self.insert(vacancy.key, w);
        assert(call_ensures(downgrade, (st,), made));
        assert(self.entries_map() == before.insert(k, made));
    }
}

/// A key that has no live state in the table, handed out by
/// [`Registry::lookup`]; the state opened for it is registered with
/// [`Registry::register`].
pub struct Vacancy {
    key: String,
}

impl Vacancy {
    /// The vacant key.
    pub closed spec fn key(&self) -> Seq<char> {
        self.key@
    }

    /// The vacant key, for opening the new state.
    pub fn key_str(&self) -> (k: &str)
        ensures
            k@ == self.key(),
    {
        self.key.as_str()
    }
}

/// What [`Registry::lookup`] found.
pub enum Lookup<S> {
    /// The live state registered for the key.
    Live(S),
    /// No live state: open one and register it.
    Vacant(Vacancy),
}

/// What a lookup of `key` in the table `m` may give: the live state that the
/// key's entry upgrades to, or, when there is no entry or it does not
/// upgrade, a vacancy for the key.
pub open spec fn looked_up<W, S, U>(m: Map<Seq<char>, W>, key: Seq<char>, upgrade: U, r: Lookup<S>) -> bool where
    U: Fn(&W) -> Option<S>,
 {
    match r {
        Lookup::Live(st) => m.contains_key(key) && call_ensures(upgrade, (&m[key],), Some(st)),
        Lookup::Vacant(v) => v.key() == key && (!m.contains_key(key) || call_ensures(
            upgrade,
            (&m[key],),
            None::<S>,
        )),
    }
}

/// Handles for one key share one state: when the table's entry for a key
/// refers to a live state `st` (every upgrade of it gives `st`), a lookup of
/// that key returns `st` and no vacancy, so nothing is opened again.
pub proof fn lemma_live_entry_is_reused<W, S, U>(
    m: Map<Seq<char>, W>,
    key: Seq<char>,
    upgrade: U,
    st: S,
    r: Lookup<S>,
) where U: Fn(&W) -> Option<S>
    requires
        m.contains_key(key),
        forall|o: Option<S>| call_ensures(upgrade, (&m[key],), o) ==> o == Some(st),
        looked_up(m, key, upgrade, r),
    ensures
        r == Lookup::<S>::Live(st),
{
}

/// A dead entry is recycled, not an error: when the entry for a key no longer
/// upgrades (or there is none), the lookup gives a vacancy for that key.
pub proof fn lemma_dead_entry_is_recycled<W, S, U>(
    m: Map<Seq<char>, W>,
    key: Seq<char>,
    upgrade: U,
    r: Lookup<S>,
) where U: Fn(&W) -> Option<S>
    requires
        m.contains_key(key) ==> forall|o: Option<S>| call_ensures(upgrade, (&m[key],), o) ==> o is None,
        looked_up(m, key, upgrade, r),
    ensures
        r matches Lookup::Vacant(v) && v.key() == key,
{
}

/// Once a state is registered for a vacancy, the entry for that key refers to
/// it (it is what `downgrade` made of it), so the next lookup of the key finds
/// it while it lives; the entries of all other keys are untouched.
pub proof fn lemma_register_shares_and_isolates<W, S, D>(
    before: Map<Seq<char>, W>,
    key: Seq<char>,
    st: S,
    downgrade: D,
    after: Map<Seq<char>, W>,
    other: Seq<char>,
) where D: Fn(&S) -> W
    requires
        exists|w: W| call_ensures(downgrade, (&st,), w) && after == before.insert(key, w),
        other != key,
    ensures
        after.contains_key(key),
        call_ensures(downgrade, (&st,), after[key]),
        after.contains_key(other) == before.contains_key(other),
        before.contains_key(other) ==> after[other] == before[other],
{
}

} // verus!
