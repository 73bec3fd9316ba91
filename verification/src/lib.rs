//! A time-bounded name reservation registry.
//!
//! Names (byte sequences) are reserved against a fee for a number of time
//! units (block heights). The registry keeps a primary store of entries, a
//! bounded reverse index from owner to the identities it holds, a creation
//! counter, and the balance ledger that collects fees and pays refunds.
//! Every state transition (`register`, `renew`, `cancel`) is atomic: it
//! either commits all of its effects or leaves the state untouched.
//!
//! The two outside collaborators are modelled explicitly: the clock is a
//! plain time-unit value supplied with each call, and the ledger is an
//! injected store the registry takes custody of at construction.

pub mod ledger;
pub mod owner_index;
pub mod registry;
pub mod store;
pub mod types;

pub use ledger::Ledger;
pub use owner_index::OwnerIndex;
pub use registry::GenesisConfig;
pub use registry::Registry;
pub use store::EntryStore;
pub use types::Config;
pub use types::Error;
pub use types::Event;
pub use types::NameEntry;
pub use types::NameId;
