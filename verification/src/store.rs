//! The primary store: entries keyed by their name identity.
//!
//! The store is a sequence of entries in which no identity occurs twice;
//! the identity of an entry is derived from its name, so the key is never
//! stored apart from the name it identifies.

use vstd::prelude::*;

use crate::types::BlockNumber;
use crate::types::NameEntry;
use crate::types::NameId;

verus! {

pub struct EntryStore {
    pub entries: Vec<NameEntry>,
}

/// Position `i` holds the entry keyed by `id`.
pub open spec fn id_at(s: Seq<NameEntry>, i: int, id: Seq<u8>) -> bool {
    0 <= i < s.len() && s[i].name@ == id
}

/// Some position holds an entry keyed by `id`.
pub open spec fn has_entry(s: Seq<NameEntry>, id: Seq<u8>) -> bool {
    exists|i: int| id_at(s, i, id)
}

/// The position of the entry keyed by `id` (meaningful when one exists).
pub open spec fn eix(s: Seq<NameEntry>, id: Seq<u8>) -> int {
    choose|i: int| id_at(s, i, id)
}

/// The owner of the entry keyed by `id`.
pub open spec fn owner_of(s: Seq<NameEntry>, id: Seq<u8>) -> u64 {
    s[eix(s, id)].owner
}

/// The expiry of the entry keyed by `id`.
pub open spec fn expiry_of(s: Seq<NameEntry>, id: Seq<u8>) -> u64 {
    s[eix(s, id)].expires_at
}

/// `id` is held by `o`: an entry for it exists and names `o` as owner.
pub open spec fn store_owned(s: Seq<NameEntry>, id: Seq<u8>, o: u64) -> bool {
    has_entry(s, id) && owner_of(s, id) == o
}

/// No identity occurs twice.
pub open spec fn uniq_ids(s: Seq<NameEntry>) -> bool {
    forall|i: int, j: int| 0 <= i < j < s.len() ==> s[i].name@ != s[j].name@
}

/// `s1` is `s0` after writing an entry for `id` with the given owner and
/// expiry: `id` is now present with exactly those fields, and every other
/// identity keeps its presence, owner and expiry.
pub open spec fn store_updated(
    s0: Seq<NameEntry>,
    s1: Seq<NameEntry>,
    id: Seq<u8>,
    owner: u64,
    exp: u64,
) -> bool {
    &&& forall|x: Seq<u8>| #[trigger] has_entry(s1, x) <==> (has_entry(s0, x) || x == id)
    &&& owner_of(s1, id) == owner
    &&& expiry_of(s1, id) == exp
    &&& forall|x: Seq<u8>|
        x != id && has_entry(s0, x) ==> #[trigger] owner_of(s1, x) == owner_of(s0, x)
            && expiry_of(s1, x) == expiry_of(s0, x)
}

/// The one position holding `id` is `eix`.
pub proof fn lemma_eix(s: Seq<NameEntry>, i: int, id: Seq<u8>)
    requires
        uniq_ids(s),
        id_at(s, i, id),
    ensures
        eix(s, id) == i,
        has_entry(s, id),
{
    assert(has_entry(s, id));
    let j = eix(s, id);
    assert(id_at(s, j, id));
    if j < i {
        assert(s[j].name@ != s[i].name@);
    } else if i < j {
        assert(s[i].name@ != s[j].name@);
    }
}

impl View for EntryStore {
    type V = Seq<NameEntry>;

    open spec fn view(&self) -> Seq<NameEntry> {
        self.entries@
    }
}

impl EntryStore {
    pub open spec fn inv(self) -> bool {
        uniq_ids(self@)
    }

    /// An empty store.
    pub fn new() -> (r: EntryStore)
        ensures
            r.inv(),
            forall|id: Seq<u8>| !has_entry(r@, id),
    {
        EntryStore { entries: Vec::new() }
    }

    /// The position of the entry keyed by `id`, if one exists.
    fn find(&self, id: &NameId) -> (r: Option<usize>)
        requires
            self.inv(),
        ensures
            match r {
                Some(i) => id_at(self@, i as int, id@) && i as int == eix(self@, id@),
                None => !has_entry(self@, id@),
            },
    {
        let mut i: usize = 0;
        while i < self.entries.len()
            invariant
                self.inv(),
                i <= self.entries.len(),
                forall|k: int| 0 <= k < i ==> self@[k].name@ != id@,
            decreases self.entries.len() - i,
        {
            if crate::types::eq_bytes(&self.entries[i].name, id) {
                proof {
                    lemma_eix(self@, i as int, id@);
                }
                return Some(i);
            }
            i = i + 1;
        }
        None
    }

    /// Read-only lookup: a structural copy of the entry keyed by `id`.
    pub fn get(&self, id: &NameId) -> (r: Option<NameEntry>)
        requires
            self.inv(),
        ensures
            r is Some <==> has_entry(self@, id@),
            r matches Some(e) ==> ({
                &&& e.name@ == id@
                &&& e.owner == owner_of(self@, id@)
                &&& e.expires_at == expiry_of(self@, id@)
            }),
    {
        match self.find(id) {
            Some(i) => Some(self.entries[i].clone()),
            None => None,
        }
    }

    /// Unconditional upsert: the entry keyed by `id` becomes `entry`; every
    /// other entry is untouched. The caller is responsible for invariant
    /// checks beforehand; the identity must be the one derived from the
    /// entry's own name.
    pub fn put(&mut self, id: NameId, entry: NameEntry)
        requires
            old(self).inv(),
            id@ == entry.name@,
        ensures
            final(self).inv(),
            store_updated(old(self)@, final(self)@, id@, entry.owner, entry.expires_at),
    {
        let ghost s0 = self@;
        match self.find(&id) {
            Some(i) => {
                self.entries[i] = entry;
                proof {
                    let s1 = self@;
                    assert(s1 == s0.update(i as int, entry));
                    assert(uniq_ids(s1)) by {
                        assert(forall|p: int, q: int|
                            0 <= p < q < s1.len() && p != i && q != i ==> s1[p].name@
                                != s1[q].name@);
                        assert(forall|p: int|
                            0 <= p < s1.len() && p != i ==> s1[p].name@ != s0[i as int].name@);
                    }
                    lemma_eix(s1, i as int, id@);
                    assert forall|x: Seq<u8>| #[trigger] has_entry(s1, x) <==> (has_entry(s0, x)
                        || x == id@) by {
                        if has_entry(s1, x) {
                            let k = eix(s1, x);
                            assert(id_at(s1, k, x));
                            if k != i {
                                assert(id_at(s0, k, x));
                            }
                        }
                        if has_entry(s0, x) {
                            let k = choose|k: int| id_at(s0, k, x);
                            if k != i {
                                assert(id_at(s1, k, x));
                            }
                        }
                    }
                    assert forall|x: Seq<u8>| x != id@ && has_entry(s0, x) implies #[trigger]
                    owner_of(s1, x) == owner_of(s0, x) && expiry_of(s1, x) == expiry_of(
                        s0,
                        x,
                    ) by {
                        let k = choose|k: int| id_at(s0, k, x);
                        lemma_eix(s0, k, x);
                        assert(k != i);
                        assert(id_at(s1, k, x));
                        lemma_eix(s1, k, x);
                    }
                }
            },
            None => {
                self.entries.push(entry);
                proof {
                    let s1 = self@;
                    assert(s1 == s0.push(entry));
                    assert(uniq_ids(s1)) by {
                        assert forall|p: int| 0 <= p < s0.len() implies s1[p] == s0[p]
                            && s0[p].name@ != id@ by {
                            if s0[p].name@ == id@ {
                                assert(id_at(s0, p, id@));
                            }
                        }
                    }
                    lemma_eix(s1, s0.len() as int, id@);
                    assert forall|x: Seq<u8>| #[trigger] has_entry(s1, x) <==> (has_entry(s0, x)
                        || x == id@) by {
                        if has_entry(s1, x) {
                            let k = eix(s1, x);
                            assert(id_at(s1, k, x));
                            if k != s0.len() {
                                assert(id_at(s0, k, x));
                            }
                        }
                        if has_entry(s0, x) {
                            let k = choose|k: int| id_at(s0, k, x);
                            assert(id_at(s1, k, x));
                        }
                    }
                    assert forall|x: Seq<u8>| x != id@ && has_entry(s0, x) implies #[trigger]
                    owner_of(s1, x) == owner_of(s0, x) && expiry_of(s1, x) == expiry_of(
                        s0,
                        x,
                    ) by {
                        let k = choose|k: int| id_at(s0, k, x);
                        lemma_eix(s0, k, x);
                        assert(id_at(s1, k, x));
                        lemma_eix(s1, k, x);
                    }
                }
            },
        }
    }

    /// True iff an entry for `id` exists and is live: it expires strictly
    /// after `now`.
    pub fn contains_live(&self, id: &NameId, now: BlockNumber) -> (r: bool)
        requires
            self.inv(),
        ensures
            r == (has_entry(self@, id@) && expiry_of(self@, id@) > now),
    {
        match self.find(id) {
            Some(i) => self.entries[i].expires_at > now,
            None => false,
        }
    }
}

} // verus!
