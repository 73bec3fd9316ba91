//! The registry itself: orchestrates `register`, `renew` and `cancel` over
//! the entry store, the owner index, the creation counter and the ledger,
//! as one atomic unit of work each.

use vstd::prelude::*;

use crate::ledger::can_xfer;
use crate::ledger::spec_balance;
use crate::ledger::xfered;
use crate::ledger::Ledger;
use crate::owner_index::index_has;
use crate::owner_index::owned_count;
use crate::owner_index::OwnerIndex;
use crate::store::expiry_of;
use crate::store::has_entry;
use crate::store::owner_of;
use crate::store::store_owned;
use crate::store::store_updated;
use crate::store::EntryStore;
use crate::types::clone_bytes;
use crate::types::AccountId;
use crate::types::Balance;
use crate::types::BlockNumber;
use crate::types::Config;
use crate::types::Error;
use crate::types::Event;
use crate::types::NameEntry;
use crate::types::NameId;

verus! {

/// The mathematical fee: blocks times cost per block.
pub open spec fn fee_val(num_blocks: u32, cost: u32) -> int {
    (num_blocks as int) * (cost as int)
}

/// The fee multiplication stays within its unsigned 32-bit domain.
pub open spec fn fee_fits(num_blocks: u32, cost: u32) -> bool {
    fee_val(num_blocks, cost) <= u32::MAX as int
}

pub struct Registry {
    /// Constants supplied at construction.
    pub cfg: Config,
    /// The primary store of entries.
    pub store: EntryStore,
    /// The owner-to-identities reverse index.
    pub index: OwnerIndex,
    /// How many entries were ever created, overflow-checked.
    pub name_cnt: u64,
    /// The balance ledger the registry holds custody of.
    pub ledger: Ledger,
    /// The domain events emitted so far, oldest first.
    pub events: Vec<Event>,
    /// Ghost account of all fees ever collected.
    pub collected: Ghost<int>,
    /// Ghost account of all refunds ever paid.
    pub refunded: Ghost<int>,
    /// Ghost record of the registry account's balance at construction.
    pub base_funds: Ghost<int>,
}

impl Registry {
    /// The three data invariants every committed operation preserves:
    /// well-formed components, at most one entry per identity, the owner
    /// index in lock-step with the store, and the registry account's
    /// balance accounting for exactly the fees collected less the refunds
    /// paid.
    pub open spec fn wf(self) -> bool {
        &&& self.store.inv()
        &&& self.index.inv()
        &&& self.ledger.inv()
        &&& self.index.max == self.cfg.max_name_owned
        &&& forall|o: AccountId, id: Seq<u8>|
            #![trigger index_has(self.index@, o, id)]
            #![trigger store_owned(self.store@, id, o)]
            index_has(self.index@, o, id) <==> store_owned(self.store@, id, o)
        &&& spec_balance(self.ledger@, self.cfg.registry_account) as int == self.base_funds@
            + self.collected@ - self.refunded@
    }

    /// A registry over a freshly endowed ledger: no entries, no events, a
    /// zero counter.
    pub fn new(cfg: Config, ledger: Ledger) -> (r: Registry)
        requires
            ledger.inv(),
        ensures
            r.wf(),
            r.cfg == cfg,
            r.name_cnt == 0,
            r.events@.len() == 0,
            r.ledger@ == ledger@,
            r.collected@ == 0,
            r.refunded@ == 0,
            forall|id: Seq<u8>| !has_entry(r.store@, id),
            forall|o: AccountId, id: Seq<u8>| !index_has(r.index@, o, id),
            forall|o: AccountId| owned_count(r.index@, o) == 0,
    {
        let ghost base = spec_balance(ledger@, cfg.registry_account) as int;
        let r = Registry {
            cfg,
            store: EntryStore::new(),
            index: OwnerIndex::new(cfg.max_name_owned),
            name_cnt: 0,
            ledger,
            events: Vec::new(),
            collected: Ghost(0),
            refunded: Ghost(0),
            base_funds: Ghost(base),
        };
        proof {
            assert forall|o: AccountId, id: Seq<u8>|
                index_has(r.index@, o, id) == store_owned(r.store@, id, o) by {
                assert(!index_has(r.index@, o, id));
                assert(!has_entry(r.store@, id));
            }
        }
        r
    }

    /// The custodial account that collects fees and pays refunds, fixed by
    /// configuration.
    pub fn account_id(&self) -> (r: AccountId)
        ensures
            r == self.cfg.registry_account,
    {
        self.cfg.registry_account
    }

    /// The identity under which `name` is keyed: derived deterministically
    /// and injectively from the raw bytes.
    pub fn name_id(name: &Vec<u8>) -> (r: NameId)
        ensures
            r@ == name@,
    {
        clone_bytes(name)
    }

    /// Accept exactly the names whose length lies strictly between the
    /// configured bounds.
    pub fn ensure_name_len(&self, name: &Vec<u8>) -> (r: Result<(), Error>)
        ensures
            r is Ok <==> (self.cfg.min_length < name@.len() < self.cfg.max_length),
            r == Err::<(), Error>(Error::NameTooShort) <==> name@.len() <= self.cfg.min_length,
            r == Err::<(), Error>(Error::NameTooLong) <==> (self.cfg.min_length < name@.len()
                && name@.len() >= self.cfg.max_length),
    {
        if name.len() <= self.cfg.min_length as usize {
            return Err(Error::NameTooShort);
        }
        if name.len() >= self.cfg.max_length as usize {
            return Err(Error::NameTooLong);
        }
        Ok(())
    }

    /// The fee for reserving `num_blocks` time units: blocks times the
    /// configured cost per block, checked within the 32-bit domain and then
    /// widened losslessly into the balance domain.
    fn calculate_fee(&self, num_blocks: u32) -> (r: Result<Balance, Error>)
        ensures
            r is Ok <==> fee_fits(num_blocks, self.cfg.block_reservation_cost),
            r matches Ok(f) ==> f as int == fee_val(num_blocks, self.cfg.block_reservation_cost),
            r is Err ==> r == Err::<Balance, Error>(Error::FeeOverflow),
    {
        match num_blocks.checked_mul(self.cfg.block_reservation_cost) {
            Some(f) => Ok(f as u64),
            None => Err(Error::FeeOverflow),
        }
    }

    /// Whether `acct` owns the entry keyed by `id`; an absent entry is the
    /// error `NameNotExist`.
    pub fn is_name_owner(&self, id: &NameId, acct: &AccountId) -> (r: Result<bool, Error>)
        requires
            self.wf(),
        ensures
            r is Ok <==> has_entry(self.store@, id@),
            r matches Ok(b) ==> b == (owner_of(self.store@, id@) == *acct),
            r is Err ==> r == Err::<bool, Error>(Error::NameNotExist),
    {
        match self.store.get(id) {
            Some(entry) => Ok(entry.owner == *acct),
            None => Err(Error::NameNotExist),
        }
    }

    /// How many entries were ever created.
    pub fn name_cnt(&self) -> (r: u64)
        ensures
            r == self.name_cnt,
    {
        self.name_cnt
    }

    /// The stored entry for `id`, if any: a structural copy.
    pub fn name_entries(&self, id: &NameId) -> (r: Option<NameEntry>)
        requires
            self.wf(),
        ensures
            r is Some <==> has_entry(self.store@, id@),
            r matches Some(e) ==> ({
                &&& e.name@ == id@
                &&& e.owner == owner_of(self.store@, id@)
                &&& e.expires_at == expiry_of(self.store@, id@)
            }),
    {
        self.store.get(id)
    }

    /// The identities `owner` holds, per the reverse index.
    pub fn name_entries_owned(&self, owner: AccountId) -> (r: Vec<NameId>)
        requires
            self.wf(),
        ensures
            r@.len() == owned_count(self.index@, owner),
            forall|x: Seq<u8>|
                #[trigger] crate::owner_index::id_in(r@, x) <==> index_has(self.index@, owner, x),
    {
        self.index.owned_of(owner)
    }

    /// The balance of `who` in the ledger the registry holds.
    pub fn free_balance(&self, who: AccountId) -> (r: Balance)
        requires
            self.wf(),
        ensures
            r == spec_balance(self.ledger@, who),
    {
        self.ledger.free_balance(who)
    }

    /// What the reservation step decides for these inputs in this state,
    /// checked in order: a duration that yields no extension, a still-live
    /// entry, fee overflow, the payer's funds, counter overflow, and the
    /// owner's capacity when the identity enters or changes hands.
    pub open spec fn create_outcome(
        self,
        owner: AccountId,
        id: Seq<u8>,
        num_blocks: u32,
        now: BlockNumber,
    ) -> Result<BlockNumber, Error> {
        let cost = self.cfg.block_reservation_cost;
        let acct = self.cfg.registry_account;
        if num_blocks == 0 || now as int + num_blocks as int > u64::MAX as int {
            Err(Error::ZeroBlocksReserved)
        } else if has_entry(self.store@, id) && expiry_of(self.store@, id) >= now {
            Err(Error::NameAlreadyRegistered)
        } else if !fee_fits(num_blocks, cost) {
            Err(Error::FeeOverflow)
        } else if !can_xfer(self.ledger@, owner, acct, fee_val(num_blocks, cost) as u64) {
            Err(Error::NotEnoughBalance)
        } else if self.name_cnt == u64::MAX {
            Err(Error::NameCntOverflow)
        } else if (!has_entry(self.store@, id) || owner_of(self.store@, id) != owner)
            && owned_count(self.index@, owner) >= self.cfg.max_name_owned {
            Err(Error::ExceedMaxNamesOwned)
        } else {
            Ok(((now as int) + (num_blocks as int)) as u64)
        }
    }

    /// What `register` decides: the length bounds first, then the
    /// reservation step.
    pub open spec fn register_outcome(
        self,
        sender: AccountId,
        id: Seq<u8>,
        num_blocks: u32,
        now: BlockNumber,
    ) -> Result<BlockNumber, Error> {
        if id.len() <= self.cfg.min_length as int {
            Err(Error::NameTooShort)
        } else if id.len() >= self.cfg.max_length as int {
            Err(Error::NameTooLong)
        } else {
            self.create_outcome(sender, id, num_blocks, now)
        }
    }

    /// What `renew` decides: length bounds, existence, ownership, then the
    /// extension from whichever of `now` and the current expiry is later.
    pub open spec fn renew_outcome(
        self,
        sender: AccountId,
        id: Seq<u8>,
        num_blocks: u32,
        now: BlockNumber,
    ) -> Result<BlockNumber, Error> {
        let cost = self.cfg.block_reservation_cost;
        let acct = self.cfg.registry_account;
        let s = self.store@;
        if id.len() <= self.cfg.min_length as int {
            Err(Error::NameTooShort)
        } else if id.len() >= self.cfg.max_length as int {
            Err(Error::NameTooLong)
        } else if !has_entry(s, id) {
            Err(Error::NameNotExist)
        } else if owner_of(s, id) != sender {
            Err(Error::NotNameOwner)
        } else {
            let base = if now > expiry_of(s, id) {
                now
            } else {
                expiry_of(s, id)
            };
            if num_blocks == 0 || base as int + num_blocks as int > u64::MAX as int {
                Err(Error::ZeroBlocksReserved)
            } else if !fee_fits(num_blocks, cost) {
                Err(Error::FeeOverflow)
            } else if !can_xfer(self.ledger@, sender, acct, fee_val(num_blocks, cost) as u64) {
                Err(Error::NotEnoughBalance)
            } else {
                Ok(((base as int) + (num_blocks as int)) as u64)
            }
        }
    }

    /// What `cancel` decides: existence, ownership, a still-live entry, the
    /// width guard on the refunded duration, then the registry account's
    /// funds for the refund.
    pub open spec fn cancel_outcome(self, from: AccountId, id: Seq<u8>, now: BlockNumber) -> Result<
        BlockNumber,
        Error,
    > {
        let cost = self.cfg.block_reservation_cost;
        let acct = self.cfg.registry_account;
        let s = self.store@;
        if !has_entry(s, id) {
            Err(Error::NameNotExist)
        } else if owner_of(s, id) != from {
            Err(Error::NotNameOwner)
        } else if expiry_of(s, id) <= now {
            Err(Error::NameExpired)
        } else if expiry_of(s, id) - now > u32::MAX {
            Err(Error::NameExpired)
        } else {
            let blocks = (expiry_of(s, id) - now) as u32;
            if !fee_fits(blocks, cost) {
                Err(Error::FeeOverflow)
            } else if !can_xfer(self.ledger@, acct, from, fee_val(blocks, cost) as u64) {
                Err(Error::NotEnoughBalance)
            } else {
                Ok(now)
            }
        }
    }

    /// The reservation step shared by `register` and initial-state loading:
    /// validate, then commit the entry, the counter, the index and the fee
    /// transfer together, or change nothing.
    fn create_name(
        &mut self,
        owner: AccountId,
        name: Vec<u8>,
        num_blocks: u32,
        now: BlockNumber,
    ) -> (r: Result<BlockNumber, Error>)
        requires
            old(self).wf(),
        ensures
            final(self).wf(),
            final(self).cfg == old(self).cfg,
            final(self).events@ == old(self).events@,
            final(self).base_funds@ == old(self).base_funds@,
            r == old(self).create_outcome(owner, name@, num_blocks, now),
            r is Err ==> *final(self) == *old(self),
            r matches Ok(e) ==> ({
                let fee = fee_val(num_blocks, old(self).cfg.block_reservation_cost);
                let acct = old(self).cfg.registry_account;
                &&& e as int == now as int + num_blocks as int
                &&& store_updated(old(self).store@, final(self).store@, name@, owner, e)
                &&& final(self).name_cnt == old(self).name_cnt + 1
                &&& xfered(old(self).ledger@, final(self).ledger@, owner, acct, fee as u64)
                &&& final(self).collected@ == old(self).collected@ + (if owner == acct {
                    0
                } else {
                    fee
                })
                &&& final(self).refunded@ == old(self).refunded@
            }),
    {
        let ghost id = name@;
        let ghost r0 = *self;
        let eff = match now.checked_add(num_blocks as u64) {
            Some(e) => e,
            None => {
                return Err(Error::ZeroBlocksReserved);
            },
        };
        if eff <= now {
            return Err(Error::ZeroBlocksReserved);
        }
        let (old_owner, already) = match self.store.get(&name) {
            Some(existing) => {
                if existing.expires_at >= now {
                    return Err(Error::NameAlreadyRegistered);
                }
                (existing.owner, true)
            },
            None => (owner, false),
        };
        let fee = match self.calculate_fee(num_blocks) {
            Ok(f) => f,
            Err(e) => {
                return Err(e);
            },
        };
        let acct = self.cfg.registry_account;
        if !self.ledger.can_transfer(owner, acct, fee) {
            return Err(Error::NotEnoughBalance);
        }
        let new_cnt = match self.name_cnt.checked_add(1) {
            Some(c) => c,
            None => {
                return Err(Error::NameCntOverflow);
            },
        };
        // The index stays in lock-step with the store: a reclaim moves the
        // identity from the previous owner's set into the caller's, a first
        // registration adds it to the caller's, and re-registering one's
        // own expired name leaves the sets as they are. The addition is
        // attempted first so that a refused capacity leaves no half-done
        // move behind.
        if old_owner != owner {
            proof {
                assert(store_owned(r0.store@, id, old_owner));
                assert(!store_owned(r0.store@, id, owner));
                assert(index_has(r0.index@, old_owner, id));
                assert(!index_has(r0.index@, owner, id));
            }
            let id_for_index = clone_bytes(&name);
            match self.index.add(owner, id_for_index) {
                Ok(()) => {},
                Err(e) => {
                    return Err(e);
                },
            };
            let ghost t_mid = self.index@;
            match self.index.remove(old_owner, &name) {
                Ok(()) => {},
                Err(_) => {
                    // unreachable: the index is in lock-step with the
                    // store, which names the previous owner
                    proof {
                        assert(index_has(t_mid, old_owner, id));
                        assert(false);
                    }
                    return Err(Error::NameNotExist);
                },
            };
            proof {
                let t1 = self.index@;
                assert forall|o: AccountId, x: Seq<u8>| #[trigger] index_has(t1, o, x) <==> (if x
                    == id {
                    o == owner
                } else {
                    index_has(r0.index@, o, x)
                }) by {
                    assert(index_has(t_mid, o, x) <==> (index_has(r0.index@, o, x) || (o == owner
                        && x == id)));
                    if x == id {
                        assert(index_has(r0.index@, o, id) <==> store_owned(r0.store@, id, o));
                    }
                }
            }
        } else if !already {
            proof {
                assert(!has_entry(r0.store@, id));
                assert(!store_owned(r0.store@, id, owner));
                assert(!index_has(r0.index@, owner, id));
            }
            let id_for_index = clone_bytes(&name);
            match self.index.add(owner, id_for_index) {
                Ok(()) => {},
                Err(e) => {
                    return Err(e);
                },
            };
            proof {
                let t1 = self.index@;
                assert forall|o: AccountId, x: Seq<u8>| #[trigger] index_has(t1, o, x) <==> (if x
                    == id {
                    o == owner
                } else {
                    index_has(r0.index@, o, x)
                }) by {
                    if x == id {
                        assert(index_has(r0.index@, o, id) <==> store_owned(r0.store@, id, o));
                    }
                }
            }
        } else {
            proof {
                let t1 = self.index@;
                assert forall|o: AccountId, x: Seq<u8>| #[trigger] index_has(t1, o, x) <==> (if x
                    == id {
                    o == owner
                } else {
                    index_has(r0.index@, o, x)
                }) by {
                    if x == id {
                        assert(index_has(r0.index@, o, id) <==> store_owned(r0.store@, id, o));
                        assert(store_owned(r0.store@, id, old_owner));
                    }
                }
            }
        }
        let ghost t1 = self.index@;
        let key = clone_bytes(&name);
        let entry = NameEntry { name, expires_at: eff, owner };
        self.store.put(key, entry);
        self.name_cnt = new_cnt;
        self.collected = Ghost(
            self.collected@ + if owner == acct {
                0
            } else {
                fee_val(num_blocks, self.cfg.block_reservation_cost)
            },
        );
        match self.ledger.transfer(owner, acct, fee) {
            Ok(()) => {},
            Err(_) => {
                // unreachable: the transfer was checked before any state
                // was touched, and nothing has moved funds since
                proof {
                    assert(false);
                }
                return Err(Error::NotEnoughBalance);
            },
        };
        proof {
            let s0 = r0.store@;
            let s1 = self.store@;
            assert(has_entry(s1, id) && owner_of(s1, id) == owner && expiry_of(s1, id) == eff);
            assert forall|o: AccountId, x: Seq<u8>|
                #![trigger index_has(self.index@, o, x)]
                #![trigger store_owned(self.store@, x, o)]
                index_has(self.index@, o, x) <==> store_owned(self.store@, x, o) by {
                assert(index_has(t1, o, x) <==> (if x == id {
                    o == owner
                } else {
                    index_has(r0.index@, o, x)
                }));
                if x != id {
                    assert(index_has(r0.index@, o, x) <==> store_owned(r0.store@, x, o));
                    assert(has_entry(s1, x) <==> has_entry(s0, x));
                    if has_entry(s0, x) {
                        assert(owner_of(s1, x) == owner_of(s0, x));
                    }
                }
            }
            assert(spec_balance(self.ledger@, acct) as int == self.base_funds@ + self.collected@
                - self.refunded@) by {
                assert(spec_balance(r0.ledger@, acct) as int == r0.base_funds@ + r0.collected@
                    - r0.refunded@);
                assert(spec_balance(self.ledger@, acct) as int == if owner == acct {
                    spec_balance(r0.ledger@, acct) as int
                } else {
                    spec_balance(r0.ledger@, acct) + fee
                });
            }
            assert(r0.create_outcome(owner, id, num_blocks, now) == Ok::<BlockNumber, Error>(eff));
        }
        Ok(eff)
    }

    /// Register `name` for `num_blocks` time units at time `now`, paid by
    /// `sender`, who becomes the owner. A fresh identity is created, an
    /// expired one is reclaimed (its previous owner loses the slot with no
    /// refund), and a live one is refused.
    pub fn register(
        &mut self,
        sender: AccountId,
        name: Vec<u8>,
        num_blocks: u32,
        now: BlockNumber,
    ) -> (r: Result<(), Error>)
        requires
            old(self).wf(),
        ensures
            final(self).wf(),
            final(self).cfg == old(self).cfg,
            (r is Ok) == (old(self).register_outcome(sender, name@, num_blocks, now) is Ok),
            r matches Err(e) ==> old(self).register_outcome(sender, name@, num_blocks, now)
                == Err::<BlockNumber, Error>(e) && *final(self) == *old(self),
            r is Ok ==> ({
                let fee = fee_val(num_blocks, old(self).cfg.block_reservation_cost);
                let acct = old(self).cfg.registry_account;
                let e = ((now as int) + (num_blocks as int)) as u64;
                &&& store_updated(old(self).store@, final(self).store@, name@, sender, e)
                &&& index_has(final(self).index@, sender, name@)
                &&& forall|o: AccountId| o != sender ==> !index_has(final(self).index@, o, name@)
                &&& final(self).name_cnt == old(self).name_cnt + 1
                &&& xfered(old(self).ledger@, final(self).ledger@, sender, acct, fee as u64)
                &&& final(self).collected@ == old(self).collected@ + (if sender == acct {
                    0
                } else {
                    fee
                })
                &&& final(self).refunded@ == old(self).refunded@
                &&& final(self).events@.len() == old(self).events@.len() + 1
                &&& (final(self).events@.last() matches Event::Registered(a, n, x) && a == sender
                    && n@ == name@ && x == e)
                &&& forall|i: int|
                    0 <= i < old(self).events@.len() ==> final(self).events@[i] == old(
                        self,
                    ).events@[i]
            }),
    {
        if let Err(e) = self.ensure_name_len(&name) {
            return Err(e);
        }
        let name_for_event = clone_bytes(&name);
        let expires_at = match self.create_name(sender, name, num_blocks, now) {
            Ok(e) => e,
            Err(e) => {
                return Err(e);
            },
        };
        self.events.push(Event::Registered(sender, name_for_event, expires_at));
        Ok(())
    }

    /// Extend `sender`'s reservation of `name` by `num_blocks` units beyond
    /// whichever is later of `now` and the current expiry: unused remaining
    /// time is preserved, never reset. The new expiry is strictly later
    /// than both the old one and `now`.
    pub fn renew(
        &mut self,
        sender: AccountId,
        name: Vec<u8>,
        num_blocks: u32,
        now: BlockNumber,
    ) -> (r: Result<(), Error>)
        requires
            old(self).wf(),
        ensures
            final(self).wf(),
            final(self).cfg == old(self).cfg,
            (r is Ok) == (old(self).renew_outcome(sender, name@, num_blocks, now) is Ok),
            r matches Err(e) ==> old(self).renew_outcome(sender, name@, num_blocks, now)
                == Err::<BlockNumber, Error>(e) && *final(self) == *old(self),
            r is Ok ==> ({
                let fee = fee_val(num_blocks, old(self).cfg.block_reservation_cost);
                let acct = old(self).cfg.registry_account;
                let s0 = old(self).store@;
                let e = ((if now > expiry_of(s0, name@) {
                    now as int
                } else {
                    expiry_of(s0, name@) as int
                }) + num_blocks as int) as u64;
                &&& has_entry(s0, name@) && owner_of(s0, name@) == sender
                &&& store_updated(s0, final(self).store@, name@, sender, e)
                &&& e > expiry_of(s0, name@)
                &&& e > now
                &&& final(self).name_cnt == old(self).name_cnt
                &&& xfered(old(self).ledger@, final(self).ledger@, sender, acct, fee as u64)
                &&& final(self).collected@ == old(self).collected@ + (if sender == acct {
                    0
                } else {
                    fee
                })
                &&& final(self).refunded@ == old(self).refunded@
                &&& final(self).events@.len() == old(self).events@.len() + 1
                &&& (final(self).events@.last() matches Event::Renewed(a, n, x) && a == sender
                    && n@ == name@ && x == e)
                &&& forall|i: int|
                    0 <= i < old(self).events@.len() ==> final(self).events@[i] == old(
                        self,
                    ).events@[i]
            }),
    {
        let ghost id = name@;
        let ghost r0 = *self;
        if let Err(e) = self.ensure_name_len(&name) {
            return Err(e);
        }
        let owned = match self.is_name_owner(&name, &sender) {
            Ok(b) => b,
            Err(e) => {
                return Err(e);
            },
        };
        if !owned {
            return Err(Error::NotNameOwner);
        }
        let entry = match self.store.get(&name) {
            Some(e) => e,
            None => {
                // unreachable: ownership was just established, so the
                // entry exists
                proof {
                    assert(false);
                }
                return Err(Error::NameNotExist);
            },
        };
        let base = if now > entry.expires_at {
            now
        } else {
            entry.expires_at
        };
        let new_expires_at = match base.checked_add(num_blocks as u64) {
            Some(e) => e,
            None => {
                return Err(Error::ZeroBlocksReserved);
            },
        };
        if new_expires_at <= base {
            return Err(Error::ZeroBlocksReserved);
        }
        let fee = match self.calculate_fee(num_blocks) {
            Ok(f) => f,
            Err(e) => {
                return Err(e);
            },
        };
        let acct = self.cfg.registry_account;
        if !self.ledger.can_transfer(sender, acct, fee) {
            return Err(Error::NotEnoughBalance);
        }
        let name_for_event = clone_bytes(&name);
        let key = clone_bytes(&name);
        self.store.put(key, NameEntry { name, expires_at: new_expires_at, owner: sender });
        self.collected = Ghost(
            self.collected@ + if sender == acct {
                0
            } else {
                fee_val(num_blocks, self.cfg.block_reservation_cost)
            },
        );
        match self.ledger.transfer(sender, acct, fee) {
            Ok(()) => {},
            Err(_) => {
                // unreachable: the transfer was checked before any state
                // was touched, and nothing has moved funds since
                proof {
                    assert(false);
                }
                return Err(Error::NotEnoughBalance);
            },
        };
        self.events.push(Event::Renewed(sender, name_for_event, new_expires_at));
        proof {
            let s0 = r0.store@;
            let s1 = self.store@;
            assert forall|o: AccountId, x: Seq<u8>|
                #![trigger index_has(self.index@, o, x)]
                #![trigger store_owned(self.store@, x, o)]
                index_has(self.index@, o, x) <==> store_owned(self.store@, x, o) by {
                assert(index_has(r0.index@, o, x) <==> store_owned(r0.store@, x, o));
                if x == id {
                    assert(store_owned(s0, id, o) <==> o == sender);
                    assert(store_owned(s1, id, o) <==> o == sender);
                } else {
                    assert(has_entry(s1, x) <==> has_entry(s0, x));
                    if has_entry(s0, x) {
                        assert(owner_of(s1, x) == owner_of(s0, x));
                    }
                }
            }
            assert(spec_balance(self.ledger@, acct) as int == self.base_funds@ + self.collected@
                - self.refunded@) by {
                assert(spec_balance(r0.ledger@, acct) as int == r0.base_funds@ + r0.collected@
                    - r0.refunded@);
                assert(spec_balance(self.ledger@, acct) as int == if sender == acct {
                    spec_balance(r0.ledger@, acct) as int
                } else {
                    spec_balance(r0.ledger@, acct) + fee
                });
            }
        }
        Ok(())
    }

    /// End `from`'s live reservation of `name` at `now`: the expiry is
    /// pulled back to `now`, the fee for the remaining whole units is
    /// refunded from the registry account, and the entry stays in the store
    /// until a future registration overwrites it.
    pub fn cancel(&mut self, from: AccountId, name: Vec<u8>, now: BlockNumber) -> (r: Result<
        (),
        Error,
    >)
        requires
            old(self).wf(),
        ensures
            final(self).wf(),
            final(self).cfg == old(self).cfg,
            (r is Ok) == (old(self).cancel_outcome(from, name@, now) is Ok),
            r matches Err(e) ==> old(self).cancel_outcome(from, name@, now) == Err::<
                BlockNumber,
                Error,
            >(e) && *final(self) == *old(self),
            r is Ok ==> ({
                let s0 = old(self).store@;
                let acct = old(self).cfg.registry_account;
                let refund = fee_val(
                    (expiry_of(s0, name@) - now) as u32,
                    old(self).cfg.block_reservation_cost,
                );
                &&& has_entry(s0, name@) && owner_of(s0, name@) == from
                &&& expiry_of(s0, name@) > now
                &&& store_updated(s0, final(self).store@, name@, from, now)
                &&& final(self).name_cnt == old(self).name_cnt
                &&& xfered(old(self).ledger@, final(self).ledger@, acct, from, refund as u64)
                &&& final(self).refunded@ == old(self).refunded@ + (if from == acct {
                    0
                } else {
                    refund
                })
                &&& final(self).collected@ == old(self).collected@
                &&& final(self).events@.len() == old(self).events@.len() + 1
                &&& (final(self).events@.last() matches Event::Canceled(a, n, x) && a == from && n@
                    == name@ && x == now)
                &&& forall|i: int|
                    0 <= i < old(self).events@.len() ==> final(self).events@[i] == old(
                        self,
                    ).events@[i]
            }),
    {
        let ghost id = name@;
        let ghost r0 = *self;
        let owned = match self.is_name_owner(&name, &from) {
            Ok(b) => b,
            Err(e) => {
                return Err(e);
            },
        };
        if !owned {
            return Err(Error::NotNameOwner);
        }
        let entry = match self.store.get(&name) {
            Some(e) => e,
            None => {
                // unreachable: ownership was just established, so the
                // entry exists
                proof {
                    assert(false);
                }
                return Err(Error::NameNotExist);
            },
        };
        if entry.expires_at <= now {
            return Err(Error::NameExpired);
        }
        let diff = entry.expires_at - now;
        let refunded_blocks: u32 = if diff > u32::MAX as u64 {
            u32::MAX
        } else {
            diff as u32
        };
        if now + refunded_blocks as u64 != entry.expires_at {
            return Err(Error::NameExpired);
        }
        let refund = match self.calculate_fee(refunded_blocks) {
            Ok(f) => f,
            Err(e) => {
                return Err(e);
            },
        };
        let acct = self.cfg.registry_account;
        if !self.ledger.can_transfer(acct, from, refund) {
            return Err(Error::NotEnoughBalance);
        }
        let name_for_event = clone_bytes(&name);
        let key = clone_bytes(&name);
        self.store.put(key, NameEntry { name, expires_at: now, owner: from });
        self.refunded = Ghost(
            self.refunded@ + if from == acct {
                0
            } else {
                fee_val(refunded_blocks, self.cfg.block_reservation_cost)
            },
        );
        match self.ledger.transfer(acct, from, refund) {
            Ok(()) => {},
            Err(_) => {
                // unreachable: the transfer was checked before any state
                // was touched, and nothing has moved funds since
                proof {
                    assert(false);
                }
                return Err(Error::NotEnoughBalance);
            },
        };
        self.events.push(Event::Canceled(from, name_for_event, now));
        proof {
            let s0 = r0.store@;
            let s1 = self.store@;
            assert forall|o: AccountId, x: Seq<u8>|
                #![trigger index_has(self.index@, o, x)]
                #![trigger store_owned(self.store@, x, o)]
                index_has(self.index@, o, x) <==> store_owned(self.store@, x, o) by {
                assert(index_has(r0.index@, o, x) <==> store_owned(r0.store@, x, o));
                if x == id {
                    assert(store_owned(s0, id, o) <==> o == from);
                    assert(store_owned(s1, id, o) <==> o == from);
                } else {
                    assert(has_entry(s1, x) <==> has_entry(s0, x));
                    if has_entry(s0, x) {
                        assert(owner_of(s1, x) == owner_of(s0, x));
                    }
                }
            }
            assert(spec_balance(self.ledger@, acct) as int == self.base_funds@ + self.collected@
                - self.refunded@) by {
                assert(spec_balance(r0.ledger@, acct) as int == r0.base_funds@ + r0.collected@
                    - r0.refunded@);
                assert(spec_balance(self.ledger@, acct) as int == if from == acct {
                    spec_balance(r0.ledger@, acct) as int
                } else {
                    spec_balance(r0.ledger@, acct) - refund
                });
            }
        }
        Ok(())
    }

    /// The most recent domain event, if any operation has committed.
    pub fn last_event(&self) -> (r: Option<&Event>)
        ensures
            r is Some <==> self.events@.len() > 0,
            r matches Some(e) ==> *e == self.events@.last(),
    {
        if self.events.len() > 0 {
            Some(&self.events[self.events.len() - 1])
        } else {
            None
        }
    }
}

/// The reservations to load into a freshly constructed registry: owner,
/// name, and duration for each.
pub struct GenesisConfig {
    pub name_entries: Vec<(AccountId, Vec<u8>, u32)>,
}

impl Default for GenesisConfig {
    fn default() -> (r: GenesisConfig)
        ensures
            r.name_entries@.len() == 0,
    {
        GenesisConfig { name_entries: Vec::new() }
    }
}

impl GenesisConfig {
    /// Load the listed reservations through the ordinary reservation step,
    /// at time `now`, dropping the ones it refuses.
    pub fn build(&self, registry: &mut Registry, now: BlockNumber)
        requires
            old(registry).wf(),
        ensures
            final(registry).wf(),
            final(registry).cfg == old(registry).cfg,
    {
        let mut i: usize = 0;
        while i < self.name_entries.len()
            invariant
                registry.wf(),
                registry.cfg == old(registry).cfg,
                i <= self.name_entries.len(),
            decreases self.name_entries.len() - i,
        {
            let acct = self.name_entries[i].0;
            let name = clone_bytes(&self.name_entries[i].1);
            let num_blocks = self.name_entries[i].2;
            let _ = registry.create_name(acct, name, num_blocks, now);
            i = i + 1;
        }
    }
}

/// Uniqueness: at most one entry per identity exists in the store — two
/// positions holding the same identity are one and the same.
pub proof fn lemma_uniqueness(r: Registry, i: int, j: int, id: Seq<u8>)
    requires
        r.wf(),
        crate::store::id_at(r.store@, i, id),
        crate::store::id_at(r.store@, j, id),
    ensures
        i == j,
{
    crate::store::lemma_eix(r.store@, i, id);
    crate::store::lemma_eix(r.store@, j, id);
}

/// Index consistency: in any well-formed state — and every operation both
/// requires and re-establishes well-formedness — the owner index holds an
/// identity for an owner exactly when the store's entry for that identity
/// names that owner.
pub proof fn lemma_index_consistency(r: Registry, o: AccountId, id: Seq<u8>)
    requires
        r.wf(),
    ensures
        index_has(r.index@, o, id) <==> store_owned(r.store@, id, o),
{
}

/// Conservation: the net change of the registry account's balance since
/// construction equals the fees collected less the refunds paid, across
/// any sequence of committed operations.
pub proof fn lemma_conservation(r: Registry)
    requires
        r.wf(),
    ensures
        spec_balance(r.ledger@, r.cfg.registry_account) as int - r.base_funds@ == r.collected@
            - r.refunded@,
{
}

} // verus!
