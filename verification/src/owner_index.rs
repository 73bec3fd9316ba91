//! The reverse lookup: for each owner, the bounded set of name identities
//! it holds. Kept in lock-step with the primary store by the registry.
//!
//! Removal swaps the removed identity with the last one and truncates:
//! only membership is meaningful, not order.

use vstd::prelude::*;

use crate::types::clone_bytes;
use crate::types::eq_bytes;
use crate::types::AccountId;
use crate::types::Error;
use crate::types::NameId;

verus! {

/// The identities one account holds.
pub struct OwnerSlot {
    pub owner: AccountId,
    pub ids: Vec<NameId>,
}

pub struct OwnerIndex {
    pub slots: Vec<OwnerSlot>,
    /// The most identities one owner may hold.
    pub max: u32,
}

/// `id` occurs among `ids`.
pub open spec fn id_in(ids: Seq<NameId>, id: Seq<u8>) -> bool {
    exists|k: int| 0 <= k < ids.len() && ids[k]@ == id
}

/// No identity occurs twice among `ids`.
pub open spec fn distinct_ids(ids: Seq<NameId>) -> bool {
    forall|p: int, q: int| 0 <= p < q < ids.len() ==> ids[p]@ != ids[q]@
}

/// Position `j` holds the slot of `o`.
pub open spec fn slot_at(t: Seq<OwnerSlot>, j: int, o: AccountId) -> bool {
    0 <= j < t.len() && t[j].owner == o
}

/// Some position holds the slot of `o`.
pub open spec fn has_slot(t: Seq<OwnerSlot>, o: AccountId) -> bool {
    exists|j: int| slot_at(t, j, o)
}

/// The position of the slot of `o` (meaningful when one exists).
pub open spec fn six(t: Seq<OwnerSlot>, o: AccountId) -> int {
    choose|j: int| slot_at(t, j, o)
}

/// `o` holds `id` in the index.
pub open spec fn index_has(t: Seq<OwnerSlot>, o: AccountId, id: Seq<u8>) -> bool {
    exists|j: int| #[trigger] slot_at(t, j, o) && id_in(t[j].ids@, id)
}

/// How many identities `o` holds (an absent slot holds none).
pub open spec fn owned_count(t: Seq<OwnerSlot>, o: AccountId) -> int {
    if has_slot(t, o) {
        t[six(t, o)].ids@.len() as int
    } else {
        0
    }
}

/// No owner has two slots.
pub open spec fn uniq_owners(t: Seq<OwnerSlot>) -> bool {
    forall|i: int, j: int| 0 <= i < j < t.len() ==> t[i].owner != t[j].owner
}

/// The slot at a position is the one slot of its owner, so membership and
/// count reduce to that slot.
pub proof fn lemma_slot_at(t: Seq<OwnerSlot>, j: int, o: AccountId)
    requires
        uniq_owners(t),
        slot_at(t, j, o),
    ensures
        has_slot(t, o),
        six(t, o) == j,
        owned_count(t, o) == t[j].ids@.len(),
        forall|id: Seq<u8>| #[trigger] index_has(t, o, id) <==> id_in(t[j].ids@, id),
{
    assert(has_slot(t, o));
    let k = six(t, o);
    assert(slot_at(t, k, o));
    if k < j {
        assert(t[k].owner != t[j].owner);
    } else if j < k {
        assert(t[j].owner != t[k].owner);
    }
    assert forall|id: Seq<u8>| #[trigger] index_has(t, o, id) <==> id_in(t[j].ids@, id) by {
        if index_has(t, o, id) {
            let j2 = choose|j2: int| #[trigger] slot_at(t, j2, o) && id_in(t[j2].ids@, id);
            if j2 < j {
                assert(t[j2].owner != t[j].owner);
            } else if j < j2 {
                assert(t[j].owner != t[j2].owner);
            }
        }
        if id_in(t[j].ids@, id) {
            assert(slot_at(t, j, o) && id_in(t[j].ids@, id));
        }
    }
}

/// An owner with no slot holds nothing.
pub proof fn lemma_no_slot(t: Seq<OwnerSlot>, o: AccountId)
    requires
        !has_slot(t, o),
    ensures
        owned_count(t, o) == 0,
        forall|id: Seq<u8>| !index_has(t, o, id),
{
    assert forall|id: Seq<u8>| !index_has(t, o, id) by {
        if index_has(t, o, id) {
            let j = choose|j: int| #[trigger] slot_at(t, j, o) && id_in(t[j].ids@, id);
            assert(slot_at(t, j, o));
        }
    }
}

impl View for OwnerIndex {
    type V = Seq<OwnerSlot>;

    open spec fn view(&self) -> Seq<OwnerSlot> {
        self.slots@
    }
}

impl OwnerIndex {
    pub open spec fn inv(self) -> bool {
        &&& uniq_owners(self@)
        &&& forall|j: int| 0 <= j < self@.len() ==> distinct_ids(#[trigger] self@[j].ids@)
        &&& forall|j: int| 0 <= j < self@.len() ==> (#[trigger] self@[j].ids@.len()) <= self.max
    }

    /// An empty index bounded by `max` identities per owner.
    pub fn new(max: u32) -> (r: OwnerIndex)
        ensures
            r.inv(),
            r.max == max,
            forall|o: AccountId, id: Seq<u8>| !index_has(r@, o, id),
            forall|o: AccountId| owned_count(r@, o) == 0,
    {
        let r = OwnerIndex { slots: Vec::new(), max };
        proof {
            assert forall|o: AccountId| !has_slot(r@, o) && owned_count(r@, o) == 0 by {
                if has_slot(r@, o) {
                    let j = six(r@, o);
                    assert(slot_at(r@, j, o));
                }
            }
            assert forall|o: AccountId, id: Seq<u8>| !index_has(r@, o, id) by {
                lemma_no_slot(r@, o);
            }
        }
        r
    }

    /// The position of the slot of `o`, if one exists.
    fn find_slot(&self, o: AccountId) -> (r: Option<usize>)
        requires
            self.inv(),
        ensures
            match r {
                Some(j) => slot_at(self@, j as int, o) && j as int == six(self@, o),
                None => !has_slot(self@, o),
            },
    {
        let mut j: usize = 0;
        while j < self.slots.len()
            invariant
                self.inv(),
                j <= self.slots.len(),
                forall|k: int| 0 <= k < j ==> self@[k].owner != o,
            decreases self.slots.len() - j,
        {
            if self.slots[j].owner == o {
                proof {
                    lemma_slot_at(self@, j as int, o);
                }
                return Some(j);
            }
            j = j + 1;
        }
        None
    }

    /// The position of `id` within a slot's identities, if present.
    fn find_in(ids: &Vec<NameId>, id: &NameId) -> (r: Option<usize>)
        ensures
            match r {
                Some(k) => 0 <= k < ids@.len() && ids@[k as int]@ == id@,
                None => !id_in(ids@, id@),
            },
    {
        let mut k: usize = 0;
        while k < ids.len()
            invariant
                k <= ids.len(),
                forall|p: int| 0 <= p < k ==> ids@[p]@ != id@,
            decreases ids.len() - k,
        {
            if eq_bytes(&ids[k], id) {
                return Some(k);
            }
            k = k + 1;
        }
        None
    }

    /// True iff `owner` holds `id`.
    pub fn contains(&self, owner: AccountId, id: &NameId) -> (r: bool)
        requires
            self.inv(),
        ensures
            r == index_has(self@, owner, id@),
    {
        match self.find_slot(owner) {
            Some(j) => {
                proof {
                    lemma_slot_at(self@, j as int, owner);
                }
                match Self::find_in(&self.slots[j].ids, id) {
                    Some(_) => true,
                    None => false,
                }
            },
            None => {
                proof {
                    lemma_no_slot(self@, owner);
                }
                false
            },
        }
    }

    /// A copy of the identities `owner` holds (empty if none).
    pub fn owned_of(&self, owner: AccountId) -> (r: Vec<NameId>)
        requires
            self.inv(),
        ensures
            r@.len() == owned_count(self@, owner),
            forall|x: Seq<u8>| #[trigger] id_in(r@, x) <==> index_has(self@, owner, x),
    {
        match self.find_slot(owner) {
            Some(j) => {
                proof {
                    lemma_slot_at(self@, j as int, owner);
                }
                let ids = &self.slots[j].ids;
                let mut r: Vec<NameId> = Vec::new();
                let mut k: usize = 0;
                while k < ids.len()
                    invariant
                        k <= ids.len(),
                        r@.len() == k,
                        forall|p: int| 0 <= p < k ==> #[trigger] r@[p]@ == ids@[p]@,
                    decreases ids.len() - k,
                {
                    r.push(clone_bytes(&ids[k]));
                    k = k + 1;
                }
                proof {
                    assert forall|x: Seq<u8>| #[trigger] id_in(r@, x) <==> id_in(
                        self@[j as int].ids@,
                        x,
                    ) by {
                        if id_in(r@, x) {
                            let p = choose|p: int| 0 <= p < r@.len() && r@[p]@ == x;
                            assert(ids@[p]@ == x);
                        }
                        if id_in(ids@, x) {
                            let p = choose|p: int| 0 <= p < ids@.len() && ids@[p]@ == x;
                            assert(r@[p]@ == x);
                        }
                    }
                }
                r
            },
            None => {
                proof {
                    lemma_no_slot(self@, owner);
                }
                Vec::new()
            },
        }
    }

    /// Record that `owner` holds `id`, refusing with `ExceedMaxNamesOwned`
    /// when the owner already holds the configured maximum. Callers only
    /// add identities not already present.
    pub fn add(&mut self, owner: AccountId, id: NameId) -> (r: Result<(), Error>)
        requires
            old(self).inv(),
            !index_has(old(self)@, owner, id@),
        ensures
            final(self).inv(),
            final(self).max == old(self).max,
            r is Ok <==> owned_count(old(self)@, owner) < old(self).max,
            r is Err ==> *final(self) == *old(self) && r == Err::<(), Error>(
                Error::ExceedMaxNamesOwned,
            ),
            r is Ok ==> forall|o: AccountId, x: Seq<u8>|
                #[trigger] index_has(final(self)@, o, x) <==> (index_has(old(self)@, o, x) || (o
                    == owner && x == id@)),
            r is Ok ==> owned_count(final(self)@, owner) == owned_count(old(self)@, owner) + 1,
            r is Ok ==> forall|o: AccountId|
                o != owner ==> #[trigger] owned_count(final(self)@, o) == owned_count(
                    old(self)@,
                    o,
                ),
    {
        let ghost t0 = self@;
        let max = self.max;
        match self.find_slot(owner) {
            Some(j) => {
                proof {
                    lemma_slot_at(t0, j as int, owner);
                }
                if self.slots[j].ids.len() >= max as usize {
                    return Err(Error::ExceedMaxNamesOwned);
                }
                let ghost ids0 = t0[j as int].ids@;
                self.slots[j].ids.push(id);
                proof {
                    let t1 = self@;
                    let ids1 = t1[j as int].ids@;
                    assert(ids1 == ids0.push(id));
                    assert(forall|p: int| 0 <= p < t1.len() && p != j ==> t1[p] == t0[p]);
                    assert(t1[j as int].owner == owner);
                    assert(uniq_owners(t1)) by {
                        assert(forall|p: int|
                            0 <= p < t1.len() ==> #[trigger] t1[p].owner == t0[p].owner);
                    }
                    assert(distinct_ids(ids1)) by {
                        assert(!id_in(ids0, id@));
                        assert(forall|p: int| 0 <= p < ids0.len() ==> ids0[p]@ != id@);
                        assert(forall|p: int|
                            0 <= p < ids1.len() - 1 ==> #[trigger] ids1[p]@ == ids0[p]@);
                    }
                    assert(self.inv());
                    lemma_slot_at(t1, j as int, owner);
                    Self::lemma_slot_update(t0, t1, j as int, owner);
                    assert forall|o: AccountId, x: Seq<u8>| #[trigger] index_has(t1, o, x) <==> (
                    index_has(t0, o, x) || (o == owner && x == id@)) by {
                        if o == owner {
                            assert(index_has(t1, o, x) <==> id_in(ids1, x));
                            assert(index_has(t0, o, x) <==> id_in(ids0, x));
                            assert forall|y: Seq<u8>| #[trigger] id_in(ids1, y) <==> (id_in(
                                ids0,
                                y,
                            ) || y == id@) by {
                                if id_in(ids1, y) {
                                    let p = choose|p: int| 0 <= p < ids1.len() && ids1[p]@ == y;
                                    if p < ids0.len() {
                                        assert(ids0[p]@ == y);
                                    }
                                }
                                if id_in(ids0, y) {
                                    let p = choose|p: int| 0 <= p < ids0.len() && ids0[p]@ == y;
                                    assert(ids1[p]@ == y);
                                }
                                if y == id@ {
                                    assert(ids1[ids1.len() - 1]@ == y);
                                }
                            }
                        }
                    }
                }
                Ok(())
            },
            None => {
                proof {
                    lemma_no_slot(t0, owner);
                }
                if max == 0 {
                    return Err(Error::ExceedMaxNamesOwned);
                }
                let ids: Vec<NameId> = vec![id];
                self.slots.push(OwnerSlot { owner, ids });
                proof {
                    let t1 = self@;
                    let jn = t0.len() as int;
                    assert(t1 == t0.push(OwnerSlot { owner, ids }));
                    assert(t1[jn].ids@.len() == 1);
                    assert(t1[jn].ids@[0] == id);
                    assert(uniq_owners(t1)) by {
                        assert(forall|p: int|
                            0 <= p < t0.len() ==> t1[p] == t0[p] && !slot_at(t0, p, owner));
                        assert(forall|p: int| 0 <= p < t0.len() ==> t0[p].owner != owner);
                    }
                    assert(self.inv()) by {
                        assert(forall|p: int| 0 <= p < t0.len() ==> t1[p] == t0[p]);
                        assert(distinct_ids(t1[jn].ids@));
                    }
                    lemma_slot_at(t1, jn, owner);
                    Self::lemma_slot_grow(t0, t1, owner);
                    assert forall|o: AccountId, x: Seq<u8>| #[trigger] index_has(t1, o, x) <==> (
                    index_has(t0, o, x) || (o == owner && x == id@)) by {
                        if o == owner {
                            assert(index_has(t1, o, x) <==> id_in(t1[jn].ids@, x));
                            lemma_no_slot(t0, owner);
                            assert forall|y: Seq<u8>| #[trigger] id_in(t1[jn].ids@, y) <==> y
                                == id@ by {
                                if id_in(t1[jn].ids@, y) {
                                    let p = choose|p: int|
                                        0 <= p < t1[jn].ids@.len() && t1[jn].ids@[p]@ == y;
                                    assert(p == 0);
                                }
                                if y == id@ {
                                    assert(t1[jn].ids@[0]@ == y);
                                }
                            }
                        }
                    }
                }
                Ok(())
            },
        }
    }

    /// Remove `id` from what `owner` holds, refusing with `NameNotExist`
    /// when it is not there (which signals an index desynchronization).
    pub fn remove(&mut self, owner: AccountId, id: &NameId) -> (r: Result<(), Error>)
        requires
            old(self).inv(),
        ensures
            final(self).inv(),
            final(self).max == old(self).max,
            r is Ok <==> index_has(old(self)@, owner, id@),
            r is Err ==> *final(self) == *old(self) && r == Err::<(), Error>(Error::NameNotExist),
            r is Ok ==> forall|o: AccountId, x: Seq<u8>|
                #[trigger] index_has(final(self)@, o, x) <==> (index_has(old(self)@, o, x) && !(o
                    == owner && x == id@)),
            r is Ok ==> owned_count(final(self)@, owner) == owned_count(old(self)@, owner) - 1,
            r is Ok ==> forall|o: AccountId|
                o != owner ==> #[trigger] owned_count(final(self)@, o) == owned_count(
                    old(self)@,
                    o,
                ),
    {
        let ghost t0 = self@;
        match self.find_slot(owner) {
            None => {
                proof {
                    lemma_no_slot(t0, owner);
                }
                Err(Error::NameNotExist)
            },
            Some(j) => {
                proof {
                    lemma_slot_at(t0, j as int, owner);
                }
                match Self::find_in(&self.slots[j].ids, id) {
                    None => Err(Error::NameNotExist),
                    Some(k) => {
                        let ghost ids0 = t0[j as int].ids@;
                        self.slots[j].ids.swap_remove(k);
                        proof {
                            let t1 = self@;
                            let ids1 = t1[j as int].ids@;
                            let n = ids0.len() as int;
                            assert(ids1 == ids0.update(k as int, ids0.last()).drop_last());
                            assert(ids1.len() == n - 1);
                            assert(forall|p: int|
                                0 <= p < n - 1 ==> ids1[p] == (if p == k as int {
                                    ids0[n - 1]
                                } else {
                                    ids0[p]
                                }));
                            assert(forall|p: int| 0 <= p < t1.len() && p != j ==> t1[p] == t0[p]);
                            assert(t1[j as int].owner == owner);
                            assert(uniq_owners(t1)) by {
                                assert(forall|p: int|
                                    0 <= p < t1.len() ==> #[trigger] t1[p].owner == t0[p].owner);
                            }
                            Self::lemma_swap_removed(ids0, ids1, k as int, id@);
                            assert(self.inv());
                            lemma_slot_at(t1, j as int, owner);
                            Self::lemma_slot_update(t0, t1, j as int, owner);
                            assert forall|o: AccountId, x: Seq<u8>| #[trigger] index_has(t1, o, x)
                                <==> (index_has(t0, o, x) && !(o == owner && x == id@)) by {
                                if o == owner {
                                    assert(index_has(t1, o, x) <==> id_in(ids1, x));
                                    assert(index_has(t0, o, x) <==> id_in(ids0, x));
                                }
                            }
                        }
                        Ok(())
                    },
                }
            },
        }
    }

    /// Slots other than the changed one keep their membership and counts.
    proof fn lemma_slot_update(t0: Seq<OwnerSlot>, t1: Seq<OwnerSlot>, j: int, owner: AccountId)
        requires
            uniq_owners(t0),
            uniq_owners(t1),
            t0.len() == t1.len(),
            0 <= j < t0.len(),
            t0[j].owner == owner,
            t1[j].owner == owner,
            forall|p: int| 0 <= p < t0.len() && p != j ==> t0[p] == t1[p],
        ensures
            forall|o: AccountId|
                o != owner ==> #[trigger] owned_count(t1, o) == owned_count(t0, o),
            forall|o: AccountId, x: Seq<u8>|
                o != owner ==> (#[trigger] index_has(t1, o, x) <==> index_has(t0, o, x)),
    {
        assert forall|o: AccountId| o != owner implies #[trigger] owned_count(t1, o)
            == owned_count(t0, o) by {
            if has_slot(t0, o) {
                let p = six(t0, o);
                assert(slot_at(t0, p, o));
                assert(p != j);
                assert(slot_at(t1, p, o));
                lemma_slot_at(t0, p, o);
                lemma_slot_at(t1, p, o);
            } else {
                assert(!has_slot(t1, o)) by {
                    if has_slot(t1, o) {
                        let p = six(t1, o);
                        assert(slot_at(t1, p, o));
                        assert(p != j);
                        assert(slot_at(t0, p, o));
                    }
                }
            }
        }
        assert forall|o: AccountId, x: Seq<u8>| o != owner implies (#[trigger] index_has(t1, o, x)
            <==> index_has(t0, o, x)) by {
            if has_slot(t0, o) {
                let p = six(t0, o);
                assert(slot_at(t0, p, o));
                assert(p != j);
                assert(slot_at(t1, p, o));
                lemma_slot_at(t0, p, o);
                lemma_slot_at(t1, p, o);
                assert(t1[p].ids@ == t0[p].ids@);
            } else {
                lemma_no_slot(t0, o);
                assert(!has_slot(t1, o)) by {
                    if has_slot(t1, o) {
                        let p = six(t1, o);
                        assert(slot_at(t1, p, o));
                        assert(p != j);
                        assert(slot_at(t0, p, o));
                    }
                }
                lemma_no_slot(t1, o);
            }
        }
    }

    /// A slot appended for a new owner leaves every other owner unchanged.
    proof fn lemma_slot_grow(t0: Seq<OwnerSlot>, t1: Seq<OwnerSlot>, owner: AccountId)
        requires
            uniq_owners(t0),
            uniq_owners(t1),
            t1.len() == t0.len() + 1,
            t1[t0.len() as int].owner == owner,
            !has_slot(t0, owner),
            forall|p: int| 0 <= p < t0.len() ==> t0[p] == t1[p],
        ensures
            forall|o: AccountId|
                o != owner ==> #[trigger] owned_count(t1, o) == owned_count(t0, o),
            forall|o: AccountId, x: Seq<u8>|
                o != owner ==> (#[trigger] index_has(t1, o, x) <==> index_has(t0, o, x)),
    {
        let jn = t0.len() as int;
        assert forall|o: AccountId| o != owner implies #[trigger] owned_count(t1, o)
            == owned_count(t0, o) by {
            if has_slot(t0, o) {
                let p = six(t0, o);
                assert(slot_at(t0, p, o));
                assert(slot_at(t1, p, o));
                lemma_slot_at(t0, p, o);
                lemma_slot_at(t1, p, o);
            } else {
                assert(!has_slot(t1, o)) by {
                    if has_slot(t1, o) {
                        let p = six(t1, o);
                        assert(slot_at(t1, p, o));
                        assert(p != jn);
                        assert(slot_at(t0, p, o));
                    }
                }
            }
        }
        assert forall|o: AccountId, x: Seq<u8>| o != owner implies (#[trigger] index_has(t1, o, x)
            <==> index_has(t0, o, x)) by {
            if has_slot(t0, o) {
                let p = six(t0, o);
                assert(slot_at(t0, p, o));
                assert(slot_at(t1, p, o));
                lemma_slot_at(t0, p, o);
                lemma_slot_at(t1, p, o);
                assert(t1[p].ids@ == t0[p].ids@);
            } else {
                lemma_no_slot(t0, o);
                assert(!has_slot(t1, o)) by {
                    if has_slot(t1, o) {
                        let p = six(t1, o);
                        assert(slot_at(t1, p, o));
                        assert(p != jn);
                        assert(slot_at(t0, p, o));
                    }
                }
                lemma_no_slot(t1, o);
            }
        }
    }

    /// Swap-with-last-and-truncate removes exactly the one occurrence of
    /// `id` from a duplicate-free sequence.
    proof fn lemma_swap_removed(ids0: Seq<NameId>, ids1: Seq<NameId>, k: int, id: Seq<u8>)
        requires
            distinct_ids(ids0),
            0 <= k < ids0.len(),
            ids0[k]@ == id,
            ids1 == ids0.update(k, ids0.last()).drop_last(),
        ensures
            distinct_ids(ids1),
            ids1.len() == ids0.len() - 1,
            forall|x: Seq<u8>| #[trigger] id_in(ids1, x) <==> (id_in(ids0, x) && x != id),
    {
        let n = ids0.len() as int;
        assert(forall|p: int|
            0 <= p < n - 1 ==> ids1[p] == (if p == k {
                ids0[n - 1]
            } else {
                ids0[p]
            }));
        assert(distinct_ids(ids1)) by {
            assert forall|p: int, q: int| 0 <= p < q < ids1.len() implies ids1[p]@ != ids1[q]@ by {
                let p0 = if p == k {
                    n - 1
                } else {
                    p
                };
                let q0 = if q == k {
                    n - 1
                } else {
                    q
                };
                assert(ids1[p]@ == ids0[p0]@);
                assert(ids1[q]@ == ids0[q0]@);
                assert(p0 != q0);
            }
        }
        assert forall|x: Seq<u8>| #[trigger] id_in(ids1, x) <==> (id_in(ids0, x) && x != id) by {
            if id_in(ids1, x) {
                let p = choose|p: int| 0 <= p < ids1.len() && ids1[p]@ == x;
                if p == k {
                    assert(ids0[n - 1]@ == x);
                } else {
                    assert(ids0[p]@ == x);
                }
                assert(id_in(ids0, x));
                if x == id {
                    let p0 = if p == k {
                        n - 1
                    } else {
                        p
                    };
                    assert(ids0[p0]@ == id);
                    assert(p0 != k ==> ids0[p0]@ != ids0[k]@);
                    assert(p0 == k ==> p == k && k == n - 1 && p < n - 1);
                }
            }
            if id_in(ids0, x) && x != id {
                let q = choose|q: int| 0 <= q < ids0.len() && ids0[q]@ == x;
                assert(q != k);
                if q == n - 1 {
                    assert(k < n - 1);
                    assert(ids1[k]@ == x);
                } else {
                    assert(ids1[q]@ == x);
                }
            }
        }
    }
}

} // verus!
