//! Light client core: verifies that a block belongs to the canonical chain by
//! extending trust from a trusted block, one verified hop at a time.
use vstd::prelude::*;

pub mod block;
pub mod light_client;
pub mod scheduler;
pub mod store;
pub mod types;
pub mod verification;

pub use block::{Block, BlockError, Data, EvidenceData};
pub use light_client::{
    accept_fetched, next_step, AtHeight, Clock, Error, Io, IoError, LightClient, State, Step,
};
pub use scheduler::schedule;
pub use store::{LightStore, StoreError};
pub use types::{
    Commit, CommitSig, Header, Height, LightBlock, Options, PeerId, SignedHeader, Status,
    Time, TrustThreshold, Validator, ValidatorSet,
};
pub use verification::{verify, Verdict, VerificationError};

verus! {

} // verus!
