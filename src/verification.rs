use vstd::prelude::*;

use crate::types::{
    total_power, lemma_total_power_prefix_bound, CommitSig, LightBlock, Options, Time,
    TrustThreshold, Validator, ValidatorSet,
};

verus! {

/// Why a block was rejected.
#[derive(Clone, Copy, Debug, PartialEq, Eq, Structural)]
pub enum VerificationError {
    NotWithinTrustPeriod,
    HeaderFromFuture,
    InvalidValidatorSet,
    ValidatorSetMismatch,
    HeaderHashMismatch,
    InvalidCommit,
    NonIncreasingHeight,
    NonIncreasingTime,
    LastBlockIdMismatch,
    InsufficientVotingPower,
}

/// Outcome of checking an untrusted block against a trusted one.
#[derive(Clone, Copy, Debug, PartialEq, Eq, Structural)]
pub enum Verdict {
    Verified,
    Invalid(VerificationError),
    NotEnoughTrust,
}

/// `s` is a valid positive vote by `v`, matched by address and public key.
pub open spec fn is_vote_of(s: CommitSig, v: Validator) -> bool {
    match s {
        CommitSig::Commit { address, pub_key, signature_valid, .. } => address == v.address
            && pub_key == v.pub_key && signature_valid,
        _ => false,
    }
}

/// `v` has a valid positive vote among `sigs`.
pub open spec fn signs(v: Validator, sigs: Seq<CommitSig>) -> bool {
    exists|i: int| 0 <= i < sigs.len() && is_vote_of(#[trigger] sigs[i], v)
}

/// Voting power, measured in `vals`, of the members of `vals` that voted in
/// `sigs`; votes of unknown validators and repeated votes add nothing.
pub open spec fn signed_power(vals: Seq<Validator>, sigs: Seq<CommitSig>) -> int
    decreases vals.len(),
{
    if vals.len() == 0 {
        0
    } else {
        signed_power(vals.drop_last(), sigs) + if signs(vals.last(), sigs) {
            vals.last().voting_power as int
        } else {
            0
        }
    }
}

/// `address` belongs to a member of `vals`.
pub open spec fn is_member(address: u64, vals: Seq<Validator>) -> bool {
    exists|j: int| 0 <= j < vals.len() && #[trigger] vals[j].address == address
}

/// A vote is acceptable unless it comes from a member of `vals` and its
/// signature does not check out.
pub open spec fn vote_acceptable(s: CommitSig, vals: Seq<Validator>) -> bool {
    match s {
        CommitSig::Commit { address, signature_valid, .. } => signature_valid || !is_member(
            address,
            vals,
        ),
        _ => true,
    }
}

/// Every positive vote by a member of `vals` carries a signature that checks
/// out; votes of unknown validators are ignored.
pub open spec fn signatures_valid(sigs: Seq<CommitSig>, vals: Seq<Validator>) -> bool {
    forall|i: int| 0 <= i < sigs.len() ==> vote_acceptable(#[trigger] sigs[i], vals)
}

/// `trusted_time + trusting_period > now + clock_drift`.
pub open spec fn within_trust_period(trusted_time: Time, opts: Options, now: Time) -> bool {
    trusted_time + opts.trusting_period > now + opts.clock_drift
}

/// `time >= now + clock_drift`.
pub open spec fn from_future(time: Time, opts: Options, now: Time) -> bool {
    time >= now + opts.clock_drift
}

/// Both validator sets of the block are well formed.
pub open spec fn validator_sets_valid(b: &LightBlock) -> bool {
    b.validators.wf() && b.next_validators.wf()
}

/// The header names the block's two validator sets.
pub open spec fn validator_hashes_match(b: &LightBlock) -> bool {
    let h = b.signed_header.header;
    b.validators.hash == h.validators_hash && b.next_validators.hash == h.next_validators_hash
}

/// The commit is for this header.
pub open spec fn commit_matches_header(b: &LightBlock) -> bool {
    let h = b.signed_header.header;
    let c = b.signed_header.commit;
    c.height == h.height && c.block_id == h.hash
}

/// Internal consistency of a block: the checks that need no trusted block.
pub open spec fn block_valid(b: &LightBlock) -> bool {
    &&& validator_sets_valid(b)
    &&& validator_hashes_match(b)
    &&& commit_matches_header(b)
    &&& signatures_valid(b.signed_header.commit.signatures@, b.validators.validators@)
}

/// Strictly later in height and in time.
pub open spec fn monotonic(trusted: &LightBlock, untrusted: &LightBlock) -> bool {
    untrusted.height() > trusted.height() && untrusted.time() > trusted.time()
}

/// The adjacent-hop links: previous block hash and validator-set hand-over.
pub open spec fn adjacency_links(trusted: &LightBlock, untrusted: &LightBlock) -> bool {
    let th = trusted.signed_header.header;
    let uh = untrusted.signed_header.header;
    uh.last_block_id == Some(th.hash) && uh.validators_hash == th.next_validators_hash
}

/// More than two thirds of the block's own validators signed its commit.
pub open spec fn has_two_thirds(b: &LightBlock) -> bool {
    3 * signed_power(b.validators.validators@, b.signed_header.commit.signatures@) > 2
        * total_power(b.validators.validators@)
}

/// Power of `trusted`'s next validators that signed `untrusted`'s commit exceeds the threshold.
pub open spec fn exceeds_trust(
    trusted: &LightBlock,
    untrusted: &LightBlock,
    t: TrustThreshold,
) -> bool {
    signed_power(
        trusted.next_validators.validators@,
        untrusted.signed_header.commit.signatures@,
    ) * t.denominator > t.numerator * total_power(trusted.next_validators.validators@)
}

/// The verdict on `untrusted` given `trusted`, the options and the time `now`.
pub open spec fn verdict(
    trusted: &LightBlock,
    untrusted: &LightBlock,
    opts: Options,
    now: Time,
) -> Verdict {
    let th = trusted.signed_header.header;
    let uh = untrusted.signed_header.header;
    let adjacent = uh.height == th.height + 1;
    if !within_trust_period(th.time, opts, now) {
        Verdict::Invalid(VerificationError::NotWithinTrustPeriod)
    } else if from_future(uh.time, opts, now) {
        Verdict::Invalid(VerificationError::HeaderFromFuture)
    } else if !validator_sets_valid(untrusted) {
        Verdict::Invalid(VerificationError::InvalidValidatorSet)
    } else if !validator_hashes_match(untrusted) {
        Verdict::Invalid(VerificationError::ValidatorSetMismatch)
    } else if !commit_matches_header(untrusted) {
        Verdict::Invalid(VerificationError::HeaderHashMismatch)
    } else if !signatures_valid(
        untrusted.signed_header.commit.signatures@,
        untrusted.validators.validators@,
    ) {
        Verdict::Invalid(VerificationError::InvalidCommit)
    } else if uh.height <= th.height {
        Verdict::Invalid(VerificationError::NonIncreasingHeight)
    } else if uh.time <= th.time {
        Verdict::Invalid(VerificationError::NonIncreasingTime)
    } else if adjacent && uh.last_block_id != Some(th.hash) {
        Verdict::Invalid(VerificationError::LastBlockIdMismatch)
    } else if adjacent && uh.validators_hash != th.next_validators_hash {
        Verdict::Invalid(VerificationError::ValidatorSetMismatch)
    } else if !has_two_thirds(untrusted) {
        Verdict::Invalid(VerificationError::InsufficientVotingPower)
    } else if !adjacent && !trusted.next_validators.wf() {
        Verdict::Invalid(VerificationError::InvalidValidatorSet)
    } else if !adjacent && !exceeds_trust(trusted, untrusted, opts.trust_threshold) {
        Verdict::NotEnoughTrust
    } else {
        Verdict::Verified
    }
}

/// An adjacent hop is verified exactly when the trusted block is within its
/// trusting period, the untrusted header is not from the future, the untrusted
/// block is internally valid, time moves forward, the adjacency links hold and
/// more than two thirds of the untrusted validators signed.
pub proof fn lemma_adjacent_hop_strict(
    trusted: &LightBlock,
    untrusted: &LightBlock,
    opts: Options,
    now: Time,
)
    requires
        untrusted.height() == trusted.height() + 1,
    ensures
        (verdict(trusted, untrusted, opts, now) == Verdict::Verified) <==> {
            &&& within_trust_period(trusted.time(), opts, now)
            &&& !from_future(untrusted.time(), opts, now)
            &&& block_valid(untrusted)
            &&& monotonic(trusted, untrusted)
            &&& adjacency_links(trusted, untrusted)
            &&& has_two_thirds(untrusted)
        },
{
}

/// A skipping hop over otherwise acceptable blocks is verified exactly when
/// the power of the trusted next validators that signed exceeds the trust
/// threshold and more than two thirds of the untrusted validators signed.
pub proof fn lemma_skipping_threshold(
    trusted: &LightBlock,
    untrusted: &LightBlock,
    opts: Options,
    now: Time,
)
    requires
        untrusted.height() > trusted.height() + 1,
        within_trust_period(trusted.time(), opts, now),
        !from_future(untrusted.time(), opts, now),
        block_valid(untrusted),
        untrusted.time() > trusted.time(),
        trusted.next_validators.wf(),
    ensures
        (verdict(trusted, untrusted, opts, now) == Verdict::Verified) <==> (exceeds_trust(
            trusted,
            untrusted,
            opts.trust_threshold,
        ) && has_two_thirds(untrusted)),
        (verdict(trusted, untrusted, opts, now) == Verdict::NotEnoughTrust) <==> (!exceeds_trust(
            trusted,
            untrusted,
            opts.trust_threshold,
        ) && has_two_thirds(untrusted)),
{
}

/// An expired trusted block is rejected whatever the untrusted block holds.
pub proof fn lemma_expired_trust_rejected(
    trusted: &LightBlock,
    untrusted: &LightBlock,
    opts: Options,
    now: Time,
)
    requires
        trusted.time() + opts.trusting_period <= now + opts.clock_drift,
    ensures
        verdict(trusted, untrusted, opts, now) == Verdict::Invalid(
            VerificationError::NotWithinTrustPeriod,
        ),
{
}

/// While the trusted block is within its trusting period, a header stamped at
/// or after `now + clock_drift` is rejected as coming from the future.
pub proof fn lemma_future_header_rejected(
    trusted: &LightBlock,
    untrusted: &LightBlock,
    opts: Options,
    now: Time,
)
    requires
        within_trust_period(trusted.time(), opts, now),
        untrusted.time() >= now + opts.clock_drift,
    ensures
        verdict(trusted, untrusted, opts, now) == Verdict::Invalid(
            VerificationError::HeaderFromFuture,
        ),
{
}

/// Signed power is at most the total power.
pub proof fn lemma_signed_power_bound(vals: Seq<Validator>, sigs: Seq<CommitSig>)
    ensures
        0 <= signed_power(vals, sigs) <= total_power(vals),
    decreases vals.len(),
{
    if vals.len() > 0 {
        lemma_signed_power_bound(vals.drop_last(), sigs);
    }
}

/// The product of two `u64` values fits in a `u128`.
proof fn lemma_product_fits(a: u64, b: u64)
    ensures
        (a as int) * (b as int) <= u128::MAX,
{
    assert((a as int) * (b as int) <= (u64::MAX as int) * (u64::MAX as int)) by (nonlinear_arith);
}

/// Whether `v` has a valid positive vote among `sigs`.
pub fn has_vote(v: Validator, sigs: &Vec<CommitSig>) -> (r: bool)
    ensures
        r == signs(v, sigs@),
{
    let mut i: usize = 0;
    while i < sigs.len()
        invariant
            i <= sigs@.len(),
            forall|k: int| 0 <= k < i ==> !is_vote_of(#[trigger] sigs@[k], v),
        decreases sigs@.len() - i,
    {
        let found = match sigs[i] {
            CommitSig::Commit { address, pub_key, signature_valid, .. } => address == v.address
                && pub_key == v.pub_key && signature_valid,
            _ => false,
        };
        if found {
            assert(is_vote_of(sigs@[i as int], v));
            return true;
        }
        i = i + 1;
    }
    false
}

/// Voting power, measured in `vals`, of its members that voted in `sigs`.
pub fn signed_voting_power(vals: &ValidatorSet, sigs: &Vec<CommitSig>) -> (r: u64)
    requires
        vals.wf(),
    ensures
        r == signed_power(vals.validators@, sigs@),
{
    let v = &vals.validators;
    let mut sum: u64 = 0;
    let mut i: usize = 0;
    while i < v.len()
        invariant
            vals.wf(),
            v@ == vals.validators@,
            i <= v@.len(),
            sum == signed_power(v@.subrange(0, i as int), sigs@),
        decreases v@.len() - i,
    {
        assert(v@.subrange(0, i as int + 1).drop_last() =~= v@.subrange(0, i as int));
        proof {
            lemma_total_power_prefix_bound(v@, i as int + 1);
            lemma_signed_power_bound(v@.subrange(0, i as int + 1), sigs@);
        }
        if has_vote(v[i], sigs) {
            sum = sum + v[i].voting_power;
        }
        i = i + 1;
    }
    assert(v@.subrange(0, i as int) =~= v@);
    sum
}

/// Whether `address` belongs to a member of `vals`.
pub fn member(address: u64, vals: &Vec<Validator>) -> (r: bool)
    ensures
        r == is_member(address, vals@),
{
    let mut j: usize = 0;
    while j < vals.len()
        invariant
            j <= vals@.len(),
            forall|k: int| 0 <= k < j ==> #[trigger] vals@[k].address != address,
        decreases vals@.len() - j,
    {
        if vals[j].address == address {
            return true;
        }
        j = j + 1;
    }
    false
}

/// Whether every positive vote by a member of `vals` carries a valid signature.
pub fn all_signatures_valid(sigs: &Vec<CommitSig>, vals: &Vec<Validator>) -> (r: bool)
    ensures
        r == signatures_valid(sigs@, vals@),
{
    let mut i: usize = 0;
    while i < sigs.len()
        invariant
            i <= sigs@.len(),
            forall|k: int| 0 <= k < i ==> vote_acceptable(#[trigger] sigs@[k], vals@),
        decreases sigs@.len() - i,
    {
        match sigs[i] {
            CommitSig::Commit { address, signature_valid, .. } => {
                if !signature_valid && member(address, vals) {
                    assert(!vote_acceptable(sigs@[i as int], vals@));
                    return false;
                }
            },
            _ => {},
        }
        i = i + 1;
    }
    true
}

/// Decides whether `untrusted` may be trusted given `trusted`, the options
/// and the local time `now`.
pub fn verify(trusted: &LightBlock, untrusted: &LightBlock, opts: &Options, now: Time) -> (r:
    Verdict)
    ensures
        r == verdict(trusted, untrusted, *opts, now),
{
    let th = &trusted.signed_header.header;
    let uh = &untrusted.signed_header.header;
    let uc = &untrusted.signed_header.commit;
    if (th.time as u128) + (opts.trusting_period as u128) <= (now as u128)
        + (opts.clock_drift as u128) {
        return Verdict::Invalid(VerificationError::NotWithinTrustPeriod);
    }
    if (uh.time as u128) >= (now as u128) + (opts.clock_drift as u128) {
        return Verdict::Invalid(VerificationError::HeaderFromFuture);
    }
    if !untrusted.validators.is_valid() || !untrusted.next_validators.is_valid() {
        return Verdict::Invalid(VerificationError::InvalidValidatorSet);
    }
    if untrusted.validators.hash != uh.validators_hash || untrusted.next_validators.hash
        != uh.next_validators_hash {
        return Verdict::Invalid(VerificationError::ValidatorSetMismatch);
    }
    if uc.height != uh.height || uc.block_id != uh.hash {
        return Verdict::Invalid(VerificationError::HeaderHashMismatch);
    }
    if !all_signatures_valid(&uc.signatures, &untrusted.validators.validators) {
        return Verdict::Invalid(VerificationError::InvalidCommit);
    }
    if uh.height <= th.height {
        return Verdict::Invalid(VerificationError::NonIncreasingHeight);
    }
    if uh.time <= th.time {
        return Verdict::Invalid(VerificationError::NonIncreasingTime);
    }
    let adjacent = uh.height == th.height + 1;
    if adjacent {
        let links = match uh.last_block_id {
            Some(id) => id == th.hash,
            None => false,
        };
        if !links {
            return Verdict::Invalid(VerificationError::LastBlockIdMismatch);
        }
        if uh.validators_hash != th.next_validators_hash {
            return Verdict::Invalid(VerificationError::ValidatorSetMismatch);
        }
    }
    let signed = signed_voting_power(&untrusted.validators, &uc.signatures);
    let total = untrusted.validators.total_voting_power();
    if 3 * (signed as u128) <= 2 * (total as u128) {
        return Verdict::Invalid(VerificationError::InsufficientVotingPower);
    }
    if !adjacent {
        if !trusted.next_validators.is_valid() {
            return Verdict::Invalid(VerificationError::InvalidValidatorSet);
        }
        let overlap = signed_voting_power(&trusted.next_validators, &uc.signatures);
        let trusted_total = trusted.next_validators.total_voting_power();
        let t = opts.trust_threshold;
        proof {
            lemma_product_fits(overlap, t.denominator);
            lemma_product_fits(t.numerator, trusted_total);
        }
        if (overlap as u128) * (t.denominator as u128) <= (t.numerator as u128) * (
        trusted_total as u128) {
            return Verdict::NotEnoughTrust;
        }
    }
    Verdict::Verified
}

} // verus!
