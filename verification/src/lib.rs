//! A content-addressed catalog for a personal audio library.
//!
//! Every track is reduced to a 128-bit fingerprint, looked up against the
//! tracks already catalogued, and kept consistent with the files that back it.
//! The crate holds the verified core: how a fingerprint is put together, how
//! the catalog is kept, how the closest existing tracks are selected, and how
//! the catalog is reconciled with what the file system shows.
//!
//! Floating-point quantities never enter the crate as such. A distance or a
//! score is carried as the IEEE-754 bit pattern of a single-precision number
//! and compared through [`ieee::less`].

pub mod catalog;
pub mod fingerprint;
pub mod ingest;
pub mod ieee;
pub mod keys;
pub mod naming;
pub mod reconcile;
pub mod record;
pub mod search;
pub mod store;
