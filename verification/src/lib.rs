//! The logic of a small web service that fronts a tier-list site, a
//! mod-hosting site and a chat server, with everything that touches the
//! network left to the caller.
//!
//! The heart of the library is the tiered player-info cache, which keeps the
//! profiles that the upstream profile service hands out in a key-value store
//! with expiring keys:
//!
//! - [`tiers`] holds the profile data, [`ident`] the player identifiers;
//! - [`codec`] lays a cached record out as a JSON document and reads it
//!   back; [`json`] holds the documents, which `serde_json` reads and writes;
//! - [`keys`] is the key scheme of the two generations of the cache;
//! - [`backend`] lists the commands the cache issues and models what a
//!   backend does with them; [`memory`] is such a backend, in memory;
//! - [`cache`] is the store itself: lookups, writes, the enumeration of
//!   everything cached, and the protocol of a route that serves a player from
//!   the cache or from upstream; [`scan`] deals with the lists that a
//!   backend hands back;
//! - [`migrate`] rewrites the entries of the legacy generation under the
//!   current scheme;
//! - [`run`], [`laws`] and [`migrate_laws`] prove what whole operations
//!   achieve.
//!
//! The library performs no I/O. Every operation of the cache is a small state
//! machine that hands out backend commands and takes the backend's replies;
//! the caller owns the connection, the clock and the way to upstream.
//!
//! Around the cache stand a few pieces of the service that compute without
//! the network: the tier list of [`model`], the defaults of [`config`], the
//! messages of the tweet relay in [`twitter`], and the request labels of
//! [`metrics`].

pub mod ident;
pub mod tiers;
pub mod json;
pub mod codec;
pub mod keys;
pub mod backend;
pub mod scan;
pub mod cache;
pub mod migrate;
pub mod run;
pub mod laws;
pub mod migrate_laws;
pub mod memory;
pub mod model;
pub mod config;
pub mod twitter;
pub mod metrics;
