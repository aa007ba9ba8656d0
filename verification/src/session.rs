//! Per-game session state: a store from game id to the hint counter of that
//! game. Modelled as a `Map<u32, u32>`; backed by a duplicate-free
//! association list, so the store's behaviour does not depend on any hash
//! order.

use vstd::prelude::*;

verus! {

/// The map an association list denotes; later entries win.
spec fn map_of(entries: Seq<(u32, u32)>) -> Map<u32, u32>
    decreases entries.len(),
{
    if entries.len() == 0 {
        Map::empty()
    } else {
        map_of(entries.drop_last()).insert(entries.last().0, entries.last().1)
    }
}

spec fn keys_distinct(entries: Seq<(u32, u32)>) -> bool {
    forall|a: int, b: int| 0 <= a < b < entries.len() ==> entries[a].0 != entries[b].0
}

proof fn lemma_map_of_contains(entries: Seq<(u32, u32)>, key: u32)
    ensures
        map_of(entries).contains_key(key) <==> exists|i: int|
            0 <= i < entries.len() && #[trigger] entries[i].0 == key,
    decreases entries.len(),
{
    if entries.len() > 0 {
        lemma_map_of_contains(entries.drop_last(), key);
        if entries.last().0 == key {
            assert(entries[entries.len() - 1].0 == key);
        } else {
            if map_of(entries).contains_key(key) {
                let i = choose|i: int|
                    0 <= i < entries.drop_last().len() && #[trigger] entries.drop_last()[i].0
                        == key;
                assert(entries[i].0 == key);
            }
            if exists|i: int| 0 <= i < entries.len() && #[trigger] entries[i].0 == key {
                let i = choose|i: int| 0 <= i < entries.len() && #[trigger] entries[i].0 == key;
                assert(i < entries.len() - 1);
                assert(entries.drop_last()[i].0 == key);
            }
        }
    }
}

proof fn lemma_map_of_lookup(entries: Seq<(u32, u32)>, i: int)
    requires
        keys_distinct(entries),
        0 <= i < entries.len(),
    ensures
        map_of(entries).contains_key(entries[i].0),
        map_of(entries)[entries[i].0] == entries[i].1,
    decreases entries.len(),
{
    if i == entries.len() - 1 {
    } else {
        assert(entries.drop_last()[i] == entries[i]);
        assert(keys_distinct(entries.drop_last()));
        lemma_map_of_lookup(entries.drop_last(), i);
        assert(entries.last().0 != entries[i].0);
    }
}

proof fn lemma_map_of_update(entries: Seq<(u32, u32)>, i: int, v: u32)
    requires
        keys_distinct(entries),
        0 <= i < entries.len(),
    ensures
        map_of(entries.update(i, (entries[i].0, v))) == map_of(entries).insert(entries[i].0, v),
    decreases entries.len(),
{
    let upd = entries.update(i, (entries[i].0, v));
    if i == entries.len() - 1 {
        assert(upd.drop_last() =~= entries.drop_last());
        assert(upd.last() == (entries[i].0, v));
        assert(map_of(upd) =~= map_of(entries).insert(entries[i].0, v));
    } else {
        assert(upd.drop_last() =~= entries.drop_last().update(i, (entries[i].0, v)));
        assert(entries.drop_last()[i] == entries[i]);
        assert(keys_distinct(entries.drop_last()));
        lemma_map_of_update(entries.drop_last(), i, v);
        assert(upd.last() == entries.last());
        assert(entries.last().0 != entries[i].0);
        assert(map_of(upd) =~= map_of(entries).insert(entries[i].0, v));
    }
}

/// The next value of a hint counter: a read always advances it by one.
pub open spec fn bump(h: u32) -> u32 {
    if h < u32::MAX {
        (h + 1) as u32
    } else {
        h
    }
}

/// The store of running game sessions: game id to hint counter.
pub struct SessionStore {
    entries: Vec<(u32, u32)>,
}

impl View for SessionStore {
    type V = Map<u32, u32>;

    closed spec fn view(&self) -> Map<u32, u32> {
        map_of(self.entries@)
    }
}

impl SessionStore {
    /// The association list never repeats a game id.
    pub closed spec fn wf(self) -> bool {
        keys_distinct(self.entries@)
    }

    /// An empty store.
    pub fn new() -> (s: SessionStore)
        ensures
            s.wf(),
            s@ == Map::<u32, u32>::empty(),
    {
        SessionStore { entries: Vec::new() }
    }

    /// The hint counter of game `id`, if a session exists.
    pub fn get(&self, id: u32) -> (r: Option<u32>)
        requires
            self.wf(),
        ensures
            match r {
                Some(h) => self@.contains_key(id) && self@[id] == h,
                None => !self@.contains_key(id),
            },
    {
        let n = self.entries.len();
        let mut k: usize = 0;
        while k < n
            invariant
                0 <= k <= n,
                n == self.entries@.len(),
                keys_distinct(self.entries@),
                forall|j: int| 0 <= j < k ==> self.entries@[j].0 != id,
            decreases n - k,
        {
            let e = self.entries[k];
            if e.0 == id {
                proof {
                    lemma_map_of_lookup(self.entries@, k as int);
                }
                return Some(e.1);
            }
            k += 1;
        }
        proof {
            lemma_map_of_contains(self.entries@, id);
        }
        None
    }

    /// Reads and advances the hint counter of game `id` as one step, so a
    /// boundary layer that serializes calls per store cannot lose an
    /// increment; `None` where no session exists.
    pub fn get_and_increment(&mut self, id: u32) -> (r: Option<u32>)
        requires
            old(self).wf(),
        ensures
            final(self).wf(),
            match r {
                Some(h) => old(self)@.contains_key(id) && h == old(self)@[id] && final(self)@
                    == old(self)@.insert(id, bump(h)),
                None => !old(self)@.contains_key(id) && final(self)@ == old(self)@,
            },
    {
        match self.get(id) {
            None => None,
            Some(h) => {
                let nh: u32 = if h < u32::MAX {
                    h + 1
                } else {
                    h
                };
                self.set(id, nh);
                Some(h)
            },
        }
    }

    /// Sets the hint counter of game `id`, creating the session if needed.
    pub fn set(&mut self, id: u32, h: u32)
        requires
            old(self).wf(),
        ensures
            final(self).wf(),
            final(self)@ == old(self)@.insert(id, h),
    {
        let n = self.entries.len();
        let mut k: usize = 0;
        while k < n
            invariant
                0 <= k <= n,
                n == self.entries@.len(),
                self.entries@ == old(self).entries@,
                keys_distinct(self.entries@),
                forall|j: int| 0 <= j < k ==> self.entries@[j].0 != id,
            decreases n - k,
        {
            if self.entries[k].0 == id {
                proof {
                    lemma_map_of_update(self.entries@, k as int, h);
                }
                self.entries[k] = (id, h);
                proof {
                    assert forall|a: int, b: int|
                        0 <= a < b < self.entries@.len() implies self.entries@[a].0
                        != self.entries@[b].0 by {
                        assert(old(self).entries@[a].0 != old(self).entries@[b].0);
                    }
                }
                return ;
            }
            k += 1;
        }
        proof {
            lemma_map_of_contains(self.entries@, id);
        }
        self.entries.push((id, h));
        proof {
            assert(self.entries@.drop_last() =~= old(self).entries@);
            assert forall|a: int, b: int|
                0 <= a < b < self.entries@.len() implies self.entries@[a].0
                != self.entries@[b].0 by {
                if b == self.entries@.len() - 1 {
                    assert(old(self).entries@[a].0 != id);
                }
            }
        }
    }
}

} // verus!
