//! The decisions of a two-party rendezvous.
//!
//! Two parties that know one id meet under it: the first to arrive waits,
//! the second releases it. The server around this module does the waiting
//! and the replying; here is what it has to remember and what each arrival
//! and each expired wait does to it. `T` is whatever the server needs to
//! release a waiting party.

use vstd::prelude::*;

verus! {

/// How long a party waits for its partner before it is told to retry
/// under a fresh id, in seconds.
pub const WAIT_SECONDS: u64 = 10;

/// A party waiting under an id.
struct Waiting<T> {
    id: String,
    waiter: T,
}

/// The parties that wait for a partner, by id.
pub struct Rendezvous<T> {
    entries: Vec<Waiting<T>>,
}

/// What an arrival under `id` does to the waiting parties, and the party
/// it releases: where one waits under `id`, that party leaves and is
/// released (the arriving party does not wait at all); where none does,
/// the arriving party starts to wait.
pub open spec fn arrival<T>(waiting: Map<Seq<char>, T>, id: Seq<char>, waiter: T) -> (
    Map<Seq<char>, T>,
    Option<T>,
) {
    if waiting.contains_key(id) {
        (waiting.remove(id), Some(waiting[id]))
    } else {
        (waiting.insert(id, waiter), None)
    }
}

/// The first of two arrivals under a free id waits, the second releases
/// it, and the id is free again: a third arrival would wait for a partner
/// of its own.
pub proof fn lemma_two_arrivals_pair<T>(waiting: Map<Seq<char>, T>, id: Seq<char>, a: T, b: T)
    requires
        !waiting.contains_key(id),
    ensures
        arrival(waiting, id, a).1 is None,
        arrival(arrival(waiting, id, a).0, id, b).1 == Some(a),
        arrival(arrival(waiting, id, a).0, id, b).0 == waiting,
{
    let first = arrival(waiting, id, a).0;
    assert(first.remove(id) =~= waiting);
}

/// A wait that expires frees its id: the next arrival under it waits.
pub proof fn lemma_expired_wait_frees<T>(waiting: Map<Seq<char>, T>, id: Seq<char>, a: T, b: T)
    ensures
        arrival(arrival(waiting, id, a).0.remove(id), id, b).1 is None,
{
}

/// Whether the entry at `i` waits under `id`.
spec fn at<T>(entries: Seq<Waiting<T>>, i: int, id: Seq<char>) -> bool {
    0 <= i < entries.len() && entries[i].id@ == id
}

/// No two entries wait under one id.
spec fn distinct<T>(entries: Seq<Waiting<T>>) -> bool {
    forall|i: int, j: int|
        0 <= i < j < entries.len() ==> (#[trigger] entries[i]).id@ != (#[trigger] entries[j]).id@
}

/// Whether a party waits under `id`.
spec fn has<T>(entries: Seq<Waiting<T>>, id: Seq<char>) -> bool {
    exists|i: int| at(entries, i, id)
}

/// The index of an entry that waits under `id`, where there is one.
spec fn pick<T>(entries: Seq<Waiting<T>>, id: Seq<char>) -> int {
    choose|i: int| at(entries, i, id)
}

/// What each waiting id holds.
spec fn by_id<T>(entries: Seq<Waiting<T>>) -> Map<Seq<char>, T> {
    Map::new(|id: Seq<char>| has(entries, id), |id: Seq<char>| entries[pick(entries, id)].waiter)
}

/// The entry under an id is the one that the map holds for it.
proof fn lemma_unique<T>(entries: Seq<Waiting<T>>, i: int, id: Seq<char>)
    requires
        distinct(entries),
        at(entries, i, id),
    ensures
        has(entries, id),
        pick(entries, id) == i,
        by_id(entries).contains_key(id),
        by_id(entries)[id] == entries[i].waiter,
{
    let chosen = pick(entries, id);
    assert(at(entries, chosen, id));
    if chosen < i {
        assert(entries[chosen].id@ != entries[i].id@);
    } else if i < chosen {
        assert(entries[i].id@ != entries[chosen].id@);
    }
}

/// Taking out the entry at `i` takes its id out of the map.
proof fn lemma_without<T>(entries: Seq<Waiting<T>>, i: int)
    requires
        distinct(entries),
        0 <= i < entries.len(),
    ensures
        distinct(entries.remove(i)),
        by_id(entries.remove(i)) == by_id(entries).remove(entries[i].id@),
{
    let after = entries.remove(i);
    let gone = entries[i].id@;
    assert(after.len() == entries.len() - 1);
    assert forall|k: int| 0 <= k < after.len() implies #[trigger] after[k] == entries[if k < i {
        k
    } else {
        k + 1
    }] by {}
    assert forall|a: int, b: int| 0 <= a < b < after.len() implies (#[trigger] after[a]).id@ != (
    #[trigger] after[b]).id@ by {
        let a0 = if a < i { a } else { a + 1 };
        let b0 = if b < i { b } else { b + 1 };
        assert(entries[a0].id@ != entries[b0].id@);
    }
    let expected = by_id(entries).remove(gone);
    assert forall|id: Seq<char>| has(after, id) implies has(entries, id) && id != gone
        && after[pick(after, id)].waiter == entries[pick(entries, id)].waiter by {
        let k = pick(after, id);
        let k0 = if k < i { k } else { k + 1 };
        assert(at(entries, k0, id));
        lemma_unique(entries, k0, id);
        if id == gone {
            lemma_unique(entries, i, id);
        }
    }
    assert forall|id: Seq<char>| has(entries, id) && id != gone implies has(after, id) by {
        let k0 = pick(entries, id);
        let k = if k0 < i { k0 } else { k0 - 1 };
        assert(at(after, k, id));
    }
    assert(by_id(after) =~= expected);
}

/// Putting an entry under a free id at the end puts it in the map.
proof fn lemma_with<T>(entries: Seq<Waiting<T>>, added: Waiting<T>)
    requires
        distinct(entries),
        !by_id(entries).contains_key(added.id@),
    ensures
        distinct(entries.push(added)),
        by_id(entries.push(added)) == by_id(entries).insert(added.id@, added.waiter),
{
    let n = entries.len() as int;
    let after = entries.push(added);
    assert forall|a: int, b: int| 0 <= a < b < after.len() implies (#[trigger] after[a]).id@ != (
    #[trigger] after[b]).id@ by {
        if b == n {
            assert(!at(entries, a, added.id@));
        }
    }
    let expected = by_id(entries).insert(added.id@, added.waiter);
    assert(at(after, n, added.id@));
    lemma_unique(after, n, added.id@);
    assert forall|id: Seq<char>| has(after, id) && id != added.id@ implies has(entries, id)
        && after[pick(after, id)].waiter == entries[pick(entries, id)].waiter by {
        let k = pick(after, id);
        assert(at(entries, k, id));
        lemma_unique(entries, k, id);
    }
    assert forall|id: Seq<char>| has(entries, id) implies has(after, id) by {
        let k = pick(entries, id);
        assert(at(after, k, id));
    }
    assert(by_id(after) =~= expected);
}

impl<T> Rendezvous<T> {
    /// What holds of every rendezvous that `new` made and that only the
    /// methods below changed: no two parties wait under one id.
    pub closed spec fn wf(&self) -> bool {
        distinct(self.entries@)
    }

    /// What each waiting id holds.
    pub closed spec fn view(&self) -> Map<Seq<char>, T> {
        by_id(self.entries@)
    }

    /// A rendezvous at which nobody waits.
    pub fn new() -> (r: Self)
        ensures
            r.wf(),
            r@ == Map::<Seq<char>, T>::empty(),
    {
        let r = Rendezvous { entries: Vec::new() };
        proof {
            assert(r@ =~= Map::<Seq<char>, T>::empty());
        }
        r
    }

    /// The entry that waits under `id`, if there is one.
    fn find(&self, id: &String) -> (r: Option<usize>)
        requires
            self.wf(),
        ensures
            match r {
                Some(i) => at(self.entries@, i as int, id@) && self@.contains_key(id@) && self@[id@]
                    == self.entries@[i as int].waiter,
                None => !self@.contains_key(id@),
            },
    {
        let n = self.entries.len();
        let mut i: usize = 0;
        while i < n
            invariant
                self.wf(),
                n == self.entries@.len(),
                i <= n,
                forall|j: int| 0 <= j < i ==> !at(self.entries@, j, id@),
            decreases n - i,
        {
            if self.entries[i].id == *id {
                proof {
                    lemma_unique(self.entries@, i as int, id@);
                }
                return Some(i);
            }
            i += 1;
        }
        None
    }

    /// Whether a party waits under `id`.
    pub fn is_waiting(&self, id: &String) -> (r: bool)
        requires
            self.wf(),
        ensures
            r == self@.contains_key(id@),
    {
        self.find(id).is_some()
    }

    /// A party arrives under `id`, bringing `waiter` for its own release.
    /// Where a party waits under `id`, it is handed back to be released,
    /// and the arriving party is done. Where none does, the arriving party
    /// waits, and nothing is handed back.
    pub fn arrive(&mut self, id: String, waiter: T) -> (released: Option<T>)
        requires
            old(self).wf(),
        ensures
            final(self).wf(),
            (final(self)@, released) == arrival(old(self)@, id@, waiter),
    {
        match self.find(&id) {
            Some(i) => {
                proof {
                    lemma_without(self.entries@, i as int);
                }
                let entry = self.entries.remove(i);
                Some(entry.waiter)
            },
            None => {
                let entry = Waiting { id, waiter };
                proof {
                    lemma_with(self.entries@, entry);
                }
                self.entries.push(entry);
                None
            },
        }
    }

    /// The wait under `id` has expired: the party stops waiting and is
    /// handed back, to be told to retry under a fresh id.
    pub fn expire(&mut self, id: &String) -> (expired: Option<T>)
        requires
            old(self).wf(),
        ensures
            final(self).wf(),
            final(self)@ == old(self)@.remove(id@),
            expired == if old(self)@.contains_key(id@) {
                Some(old(self)@[id@])
            } else {
                None
            },
    {
        match self.find(id) {
            Some(i) => {
                proof {
                    lemma_without(self.entries@, i as int);
                }
                let entry = self.entries.remove(i);
                Some(entry.waiter)
            },
            None => {
                proof {
                    assert(self@.remove(id@) =~= self@);
                }
                None
            },
        }
    }
}

} // verus!
