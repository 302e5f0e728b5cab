//! A committee that decides proposals by commit-reveal quadratic voting.
//!
//! Members deposit collateral and receive voting credits. A vote of weight
//! `w` costs `w * w` credits and is first committed as a signature over the
//! hidden choice, then revealed. When the reveal phase closes, the voters get
//! their credits back, the losing side is slashed by a tenth of its
//! collateral and the slashed amount is shared among the winners.
//!
//! - `types`: the data of the committee and the interfaces of the identity
//!   registry and the collateral ledger it works with;
//! - `store`: keyed storage seen as a map;
//! - `tally`: who wins and who loses, and how credits and collateral move;
//! - `pallet`: the committee's state and operations, with the laws they keep;
//! - `external`: the encoding, hashing and signature checks it relies on.

pub mod external;
pub mod pallet;
pub mod store;
pub mod tally;
pub mod types;
