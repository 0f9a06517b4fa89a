//! A policy-data bundle server, without the server.
//!
//! Three relation snapshots and a metadata document make a [`bundle::Bundle`],
//! whose revision is computed from them. A bundle packs into a gzip-compressed
//! tar archive ([`bundle::Bundle::to_tar_gz`]); bundle and archive together are
//! the pair that is served ([`store::BundleFile`]), held in a cell that is only
//! ever replaced as a whole ([`store::BundleStore`]). The refresher
//! ([`refresh`]) says when the next fetch is due and what a finished fetch
//! does to the store; the serving front ([`front`]) answers a request with the
//! whole archive, or with "not modified" when the request already names the
//! current revision ([`condition`], [`etag`]).
//!
//! Everything here works on plain values. Fetching the snapshots, waiting,
//! locking and speaking HTTP are left to the program around it.

pub mod archive;
pub mod bundle;
pub mod condition;
pub mod error;
pub mod etag;
pub mod front;
pub mod json;
pub mod refresh;
pub mod store;
pub mod text;
