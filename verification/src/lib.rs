//! A range-based lookup table: an interval map from inclusive address ranges
//! to values.
//!
//! The map ingests an unordered batch of `(start, end, value)` ranges through
//! [`IpAddrMap::insert`], normalizes them with [`IpAddrMap::cleanup`] (sort by
//! `(start, end)`, then collapse adjacent duplicates), and afterwards answers
//! point-containment queries in logarithmic time through
//! [`IpAddrMap::search`] or [`IpAddrMap::try_search`].

pub mod country;
pub mod entry;
pub mod error;
pub mod key;
pub mod laws;
pub mod map;
pub mod run;
pub mod value;

pub use country::CountryPair;
pub use entry::EntryModel;
pub use entry::IpAddrEntry;
pub use entry::Ipv4AddrEntry;
pub use entry::Ipv6AddrEntry;
pub use error::Error;
pub use key::MapKey;
pub use map::IpAddrMap;
pub use run::RunType;
pub use value::MapValue;
