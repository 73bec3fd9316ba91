//! Plain data carried through the registry: configuration constants, the
//! error and event kinds, and the stored entry itself.

use vstd::prelude::*;

verus! {

/// An account in the ledger, payer of fees and owner of entries.
pub type AccountId = u64;

/// A point in the time-unit domain (a block height).
pub type BlockNumber = u64;

/// An amount of funds in the ledger.
pub type Balance = u64;

/// The identity under which a name's entry is keyed: derived
/// deterministically and injectively from the name's raw bytes. The
/// canonical injective derivation, the byte sequence itself, serves as the
/// key; any collision-resistant digest supplied from outside would key the
/// same entries the same way.
pub type NameId = Vec<u8>;

/// Constants supplied when the registry is constructed.
#[derive(Clone, Copy, PartialEq, Eq, Structural, Debug)]
pub struct Config {
    /// The most identities a single account may hold in the owner index.
    pub max_name_owned: u32,
    /// The fee charged per reserved time unit.
    pub block_reservation_cost: u32,
    /// Names must be strictly longer than this.
    pub min_length: u16,
    /// Names must be strictly shorter than this.
    pub max_length: u16,
    /// The custodial account that collects fees and pays refunds.
    pub registry_account: AccountId,
}

/// Every way an operation can be refused. Each aborts the whole operation
/// with no partial effects.
#[derive(Clone, Copy, PartialEq, Eq, Structural, Debug)]
pub enum Error {
    /// The counter of created entries would overflow.
    NameCntOverflow,
    /// No entry exists for the identity, or the owner index lacks an
    /// identity the store says it must hold.
    NameNotExist,
    /// The owner already holds the configured maximum of identities.
    ExceedMaxNamesOwned,
    /// The caller does not own the entry.
    NotNameOwner,
    /// The operation needs a live reservation but it has lapsed, or the
    /// refund width check failed.
    NameExpired,
    /// The identity is currently reserved and not yet expired.
    NameAlreadyRegistered,
    /// The payer, or the registry account for a refund, lacks the funds,
    /// or the ledger refused the transfer.
    NotEnoughBalance,
    /// The requested duration yields no actual extension, or the expiry
    /// computation overflowed.
    ZeroBlocksReserved,
    /// The fee multiplication overflowed its 32-bit domain.
    FeeOverflow,
    /// The name is not strictly longer than the configured minimum.
    NameTooShort,
    /// The name is not strictly shorter than the configured maximum.
    NameTooLong,
}

/// A domain event, one per successful operation, carrying the caller, the
/// name, and the resulting expiry (for `Canceled`, the time of the cancel).
#[derive(Debug)]
pub enum Event {
    Registered(AccountId, Vec<u8>, BlockNumber),
    Renewed(AccountId, Vec<u8>, BlockNumber),
    Canceled(AccountId, Vec<u8>, BlockNumber),
}

/// One reservation: the raw name, when it lapses, and who holds it.
#[derive(Debug)]
pub struct NameEntry {
    pub name: Vec<u8>,
    pub expires_at: BlockNumber,
    pub owner: AccountId,
}

/// Structural equality of entries: same name bytes, same expiry, same owner.
pub open spec fn entry_eqv(a: NameEntry, b: NameEntry) -> bool {
    &&& a.name@ == b.name@
    &&& a.expires_at == b.expires_at
    &&& a.owner == b.owner
}

/// Structural equality of events: same kind, same account, same name bytes,
/// same block number.
pub open spec fn event_eqv(a: Event, b: Event) -> bool {
    match (a, b) {
        (Event::Registered(x, n, e), Event::Registered(y, m, f)) => {
            x == y && n@ == m@ && e == f
        },
        (Event::Renewed(x, n, e), Event::Renewed(y, m, f)) => x == y && n@ == m@ && e == f,
        (Event::Canceled(x, n, e), Event::Canceled(y, m, f)) => x == y && n@ == m@ && e == f,
        _ => false,
    }
}

/// Byte-for-byte copy of a name.
pub fn clone_bytes(v: &Vec<u8>) -> (r: Vec<u8>)
    ensures
        r@ == v@,
{
    let mut r: Vec<u8> = Vec::new();
    let mut i: usize = 0;
    while i < v.len()
        invariant
            i <= v.len(),
            r@ == v@.take(i as int),
        decreases v.len() - i,
    {
        r.push(v[i]);
        proof {
            assert(r@ =~= v@.take(i + 1 as int));
        }
        i = i + 1;
    }
    proof {
        assert(r@ =~= v@);
    }
    r
}

/// Order-sensitive comparison of two byte sequences.
pub fn eq_bytes(a: &Vec<u8>, b: &Vec<u8>) -> (r: bool)
    ensures
        r == (a@ == b@),
{
    if a.len() != b.len() {
        return false;
    }
    let mut i: usize = 0;
    while i < a.len()
        invariant
            a.len() == b.len(),
            i <= a.len(),
            forall|k: int| 0 <= k < i ==> a@[k] == b@[k],
        decreases a.len() - i,
    {
        if a[i] != b[i] {
            return false;
        }
        i = i + 1;
    }
    proof {
        assert(a@ =~= b@);
    }
    true
}

impl NameEntry {
    /// True iff this entry's name equals `b`, byte for byte and in order.
    pub fn eq_name(&self, b: Vec<u8>) -> (r: bool)
        ensures
            r == (self.name@ == b@),
    {
        eq_bytes(&self.name, &b)
    }

    /// Structural equality with another entry: name bytes, owner and expiry
    /// all equal.
    pub fn eq_name_entry(&self, y: &Self) -> (r: bool)
        ensures
            r == entry_eqv(*self, *y),
    {
        self.expires_at == y.expires_at && self.owner == y.owner && self.eq_name(
            clone_bytes(&y.name),
        )
    }
}

impl Clone for NameEntry {
    fn clone(&self) -> (r: Self)
        ensures
            entry_eqv(r, *self),
    {
        NameEntry {
            name: clone_bytes(&self.name),
            expires_at: self.expires_at,
            owner: self.owner,
        }
    }
}

impl PartialEq for NameEntry {
    fn eq(&self, other: &Self) -> (r: bool) {
        self.eq_name_entry(other)
    }
}

impl vstd::std_specs::cmp::PartialEqSpecImpl for NameEntry {
    open spec fn obeys_eq_spec() -> bool {
        true
    }

    open spec fn eq_spec(&self, other: &Self) -> bool {
        entry_eqv(*self, *other)
    }
}

impl PartialEq for Event {
    fn eq(&self, other: &Self) -> (r: bool) {
        match (self, other) {
            (Event::Registered(x, n, e), Event::Registered(y, m, f)) => {
                x == y && e == f && eq_bytes(n, m)
            },
            (Event::Renewed(x, n, e), Event::Renewed(y, m, f)) => {
                x == y && e == f && eq_bytes(n, m)
            },
            (Event::Canceled(x, n, e), Event::Canceled(y, m, f)) => {
                x == y && e == f && eq_bytes(n, m)
            },
            _ => false,
        }
    }
}

impl vstd::std_specs::cmp::PartialEqSpecImpl for Event {
    open spec fn obeys_eq_spec() -> bool {
        true
    }

    open spec fn eq_spec(&self, other: &Self) -> bool {
        event_eqv(*self, *other)
    }
}

} // verus!
