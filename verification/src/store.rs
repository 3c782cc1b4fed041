use vstd::prelude::*;

verus! {

/// An in-memory slot store: records addressed by small integer ids.
///
/// A record lives in the lowest slot that was free when it was inserted;
/// deleting a record frees its slot for reuse by a later insert.  At any
/// instant at most one live record occupies a given id, and the set of
/// valid ids is exactly the set that `list` returns at that moment.
pub struct Store<T> {
    slots: Vec<Option<T>>,
}

/// A slot id is live when it addresses a currently stored record.
pub open spec fn live<T>(s: Seq<Option<T>>, id: int) -> bool {
    0 <= id < s.len() && s[id] is Some
}

/// The least index at or after `i` that holds a free slot, or `s.len()`.
pub open spec fn first_free_from<T>(s: Seq<Option<T>>, i: int) -> int
    decreases s.len() - i,
{
    if i < 0 {
        0
    } else if i >= s.len() {
        s.len() as int
    } else if s[i] is None {
        i
    } else {
        first_free_from(s, i + 1)
    }
}

/// The slot an insert will fill: the lowest free slot, or a fresh one at the end.
pub open spec fn lowest_free<T>(s: Seq<Option<T>>) -> int {
    first_free_from(s, 0)
}

/// The ids of the live slots, in increasing slot order.
pub open spec fn live_ids<T>(s: Seq<Option<T>>) -> Seq<int>
    decreases s.len(),
{
    if s.len() == 0 {
        Seq::empty()
    } else {
        let prefix = live_ids(s.drop_last());
        if s.last() is Some {
            prefix.push(s.len() - 1)
        } else {
            prefix
        }
    }
}

/// `first_free_from(s, i)` is the least free index at or after `i`:
/// every index in `[i, k)` is occupied and `k` itself is free (or the end).
pub proof fn lemma_first_free_char<T>(s: Seq<Option<T>>, i: int, k: int)
    requires
        0 <= i <= k <= s.len(),
        forall|j: int| i <= j < k ==> s[j] is Some,
        k == s.len() || s[k] is None,
    ensures
        first_free_from(s, i) == k,
    decreases k - i,
{
    if i < k {
        lemma_first_free_char(s, i + 1, k);
    }
}

/// Every element of `live_ids(s)` is a live id of `s`, and conversely.
pub proof fn lemma_live_ids_complete<T>(s: Seq<Option<T>>, id: int)
    ensures
        live_ids(s).contains(id) <==> live(s, id),
    decreases s.len(),
{
    if s.len() > 0 {
        let prefix = live_ids(s.drop_last());
        let ids = live_ids(s);
        lemma_live_ids_complete(s.drop_last(), id);
        if live(s, id) {
            if id < s.len() - 1 {
                assert(s.drop_last()[id] == s[id]);
                let w = choose|w: int| 0 <= w < prefix.len() && prefix[w] == id;
                if s.last() is Some {
                    assert(ids[w] == id);
                } else {
                    assert(ids[w] == id);
                }
            } else {
                assert(s.last() is Some);
                assert(ids.last() == id);
            }
            assert(ids.contains(id));
        }
        if ids.contains(id) {
            let w = choose|w: int| 0 <= w < ids.len() && ids[w] == id;
            if s.last() is Some && w == ids.len() - 1 {
                assert(live(s, id));
            } else {
                assert(prefix[w] == id);
                assert(prefix.contains(id));
                assert(live(s.drop_last(), id));
                assert(s.drop_last()[id] == s[id]);
            }
        }
    }
}

/// The listed ids are strictly increasing, hence free of duplicates.
pub proof fn lemma_live_ids_sorted<T>(s: Seq<Option<T>>, a: int, b: int)
    requires
        0 <= a < b < live_ids(s).len(),
    ensures
        live_ids(s)[a] < live_ids(s)[b],
    decreases s.len(),
{
    if s.len() > 0 {
        let ids = live_ids(s);
        let prefix = live_ids(s.drop_last());
        if s.last() is Some {
            if b < ids.len() - 1 {
                lemma_live_ids_sorted(s.drop_last(), a, b);
            } else {
                lemma_live_ids_complete(s.drop_last(), ids[a]);
            }
        } else {
            lemma_live_ids_sorted(s.drop_last(), a, b);
        }
    }
}

/// Law: the listed ids never repeat; no two live records share an id.
pub proof fn lemma_live_ids_distinct<T>(s: Seq<Option<T>>)
    ensures
        forall|a: int, b: int|
            0 <= a < live_ids(s).len() && 0 <= b < live_ids(s).len() && a != b ==> live_ids(s)[a]
                != live_ids(s)[b],
{
    assert forall|a: int, b: int|
        0 <= a < live_ids(s).len() && 0 <= b < live_ids(s).len() && a != b implies live_ids(s)[a]
        != live_ids(s)[b] by {
        if a < b {
            lemma_live_ids_sorted(s, a, b);
        } else {
            lemma_live_ids_sorted(s, b, a);
        }
    }
}

/// The lowest free slot lies at or before any free slot.
pub proof fn lemma_first_free_at_most<T>(s: Seq<Option<T>>, i: int, k: int)
    requires
        0 <= i <= k < s.len(),
        s[k] is None,
    ensures
        first_free_from(s, i) <= k,
    decreases k - i,
{
    if i < k && s[i] is Some {
        lemma_first_free_at_most(s, i + 1, k);
    }
}

/// Law: after a live id `k` is deleted, the next insert assigns an id no
/// greater than `k`: a freed slot is never passed over for a fresh one.
pub proof fn lemma_reuse_at_most<T>(s: Seq<Option<T>>, k: int)
    requires
        live(s, k),
    ensures
        lowest_free(s.update(k, None)) <= k,
{
    lemma_first_free_at_most(s.update(k, None), 0, k);
}

/// Law: after a live id `k` is deleted, the next insert reassigns `k` itself
/// whenever every slot below `k` is still occupied (there is no lower free
/// slot that would win).
pub proof fn lemma_id_reuse<T>(s: Seq<Option<T>>, k: int)
    requires
        live(s, k),
        forall|j: int| 0 <= j < k ==> s[j] is Some,
    ensures
        lowest_free(s.update(k, None)) == k,
{
    let deleted = s.update(k, None);
    lemma_first_free_char(deleted, 0, k);
}

impl<T> View for Store<T> {
    type V = Seq<Option<T>>;

    closed spec fn view(&self) -> Seq<Option<T>> {
        self.slots@
    }
}

impl<T> Store<T> {
    /// An empty store: no slot is live.
    pub fn new() -> (s: Store<T>)
        ensures
            s@ == Seq::<Option<T>>::empty(),
    {
        Store { slots: Vec::new() }
    }

    /// Stores `value` in the lowest free slot, appending a fresh slot when
    /// none is free, and returns the slot's id.  Never fails.
    pub fn insert(&mut self, value: T) -> (id: usize)
        ensures
            id == lowest_free(old(self)@),
            !live(old(self)@, id as int),
            live(final(self)@, id as int),
            final(self)@ == (if id < old(self)@.len() {
                old(self)@.update(id as int, Some(value))
            } else {
                old(self)@.push(Some(value))
            }),
            final(self)@[id as int] == Some(value),
            forall|j: int| 0 <= j < old(self)@.len() && j != id ==> final(self)@[j] == old(
                self,
            )@[j],
    {
        let n = self.slots.len();
        let mut i: usize = 0;
        while i < n
            invariant
                self.slots@ == old(self)@,
                n == self.slots.len(),
                0 <= i <= n,
                forall|j: int| 0 <= j < i ==> self.slots@[j] is Some,
            decreases n - i,
        {
            if self.slots[i].is_none() {
                proof {
                    lemma_first_free_char(self.slots@, 0, i as int);
                }
                self.slots.set(i, Some(value));
                return i;
            }
            i = i + 1;
        }
        proof {
            lemma_first_free_char(self.slots@, 0, n as int);
        }
        self.slots.push(Some(value));
        n
    }

    /// Returns the record at `id` when that id is live, and nothing otherwise.
    pub fn get(&self, id: usize) -> (r: Option<&T>)
        ensures
            r is Some <==> live(self@, id as int),
            live(self@, id as int) ==> *r->Some_0 == self@[id as int]->Some_0,
    {
        if id < self.slots.len() {
            match &self.slots[id] {
                Some(v) => Some(v),
                None => None,
            }
        } else {
            None
        }
    }

    /// Replaces the record at `id` when that id is live and reports whether it
    /// was; a dead id leaves the store unchanged.
    pub fn update(&mut self, id: usize, value: T) -> (found: bool)
        ensures
            found == live(old(self)@, id as int),
            found ==> final(self)@ == old(self)@.update(id as int, Some(value)),
            !found ==> final(self)@ == old(self)@,
    {
        if id < self.slots.len() {
            if self.slots[id].is_some() {
                self.slots[id] = Some(value);
                return true;
            }
        }
        false
    }

    /// Frees the slot at `id` when that id is live and reports whether it was;
    /// a dead id leaves the store unchanged.
    pub fn delete(&mut self, id: usize) -> (found: bool)
        ensures
            found == live(old(self)@, id as int),
            found ==> final(self)@ == old(self)@.update(id as int, None),
            !found ==> final(self)@ == old(self)@,
    {
        if id < self.slots.len() {
            if self.slots[id].is_some() {
                self.slots[id] = None;
                return true;
            }
        }
        false
    }

    /// Returns all currently live ids, in slot order.
    pub fn list(&self) -> (ids: Vec<usize>)
        ensures
            ids@.map_values(|id: usize| id as int) == live_ids(self@),
    {
        let mut ids: Vec<usize> = Vec::new();
        let n = self.slots.len();
        let mut i: usize = 0;
        while i < n
            invariant
                n == self.slots.len(),
                0 <= i <= n,
                ids@.map_values(|id: usize| id as int) == live_ids(self.slots@.take(i as int)),
            decreases n - i,
        {
            proof {
                assert(self.slots@.take(i + 1).drop_last() == self.slots@.take(i as int));
                assert(self.slots@.take(i + 1).last() == self.slots@[i as int]);
            }
            if self.slots[i].is_some() {
                ids.push(i);
                proof {
                    assert(ids@.map_values(|id: usize| id as int) == live_ids(
                        self.slots@.take(i as int),
                    ).push(i as int));
                }
            }
            i = i + 1;
        }
        proof {
            assert(self.slots@.take(n as int) == self.slots@);
        }
        ids
    }
}

} // verus!
