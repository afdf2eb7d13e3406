//! Shamir secret sharing over the finite field GF(2^32).
//!
//! A secret byte string is split into `Shard`s such that any `threshold`
//! of them (but no fewer) suffice to reconstruct it. The `Dealer` holds
//! one polynomial per 4-byte chunk of the secret, each with that chunk
//! as its constant term; a shard is the evaluation of every polynomial
//! at one shared non-zero point.

use vstd::prelude::*;

pub mod dealer;
pub mod gf;
pub mod poly;
pub mod shard;

pub use dealer::Dealer;
pub use dealer::recover_secret;
pub use gf::GfElem;
pub use poly::GfPoly;
pub use poly::lagrange_constant;
pub use shard::Shard;

verus! {

/// Why sharding or recovery was refused. Every such condition is
/// reported eagerly, before any field arithmetic runs: a wrong secret
/// must never be produced silently.
#[derive(Clone, Copy, Debug, PartialEq, Eq, Structural, Hash)]
pub enum Error {
    /// A threshold of zero was requested.
    InvalidConfiguration,
    /// The shards passed to recovery disagree on threshold, value count
    /// or secret length.
    InconsistentShardSet,
    /// The number of shards differs from the threshold they require.
    WrongShardCount,
    /// A sample set with duplicate x-coordinates, over which
    /// interpolation is undefined.
    InterpolationFailure,
}

} // verus!
