use vstd::prelude::*;

verus! {

/// Block height: strictly positive on a chain.
pub type Height = u64;

/// Timestamp in whole seconds.
pub type Time = u64;

/// Cryptographic digest, carried as an opaque value.
pub type Hash = u64;

/// Identifier of the full node that provided a block.
pub type PeerId = u64;

/// A member of a validator set.
#[derive(Clone, Copy, Debug, PartialEq, Eq, Structural)]
pub struct Validator {
    pub address: u64,
    pub pub_key: u64,
    pub voting_power: u64,
}

/// Sum of the voting power of a sequence of validators.
pub open spec fn total_power(vals: Seq<Validator>) -> int
    decreases vals.len(),
{
    if vals.len() == 0 {
        0
    } else {
        total_power(vals.drop_last()) + vals.last().voting_power
    }
}

/// An ordered set of validators together with its (externally computed) hash.
#[derive(Debug)]
pub struct ValidatorSet {
    pub validators: Vec<Validator>,
    pub hash: Hash,
}

impl ValidatorSet {
    /// Non-empty, positive powers, distinct addresses, and a total that fits in `u64`.
    pub open spec fn wf(&self) -> bool {
        let v = self.validators@;
        &&& v.len() > 0
        &&& forall|i: int| 0 <= i < v.len() ==> #[trigger] v[i].voting_power > 0
        &&& forall|i: int, j: int|
            0 <= i < j < v.len() ==> #[trigger] v[i].address != #[trigger] v[j].address
        &&& total_power(v) <= u64::MAX
    }

    pub open spec fn same_as(&self, other: &ValidatorSet) -> bool {
        self.validators@ == other.validators@ && self.hash == other.hash
    }

    /// A copy holding the same validators and hash.
    pub fn copy(&self) -> (r: ValidatorSet)
        ensures
            r.same_as(self),
    {
        let mut vals: Vec<Validator> = Vec::new();
        let mut i: usize = 0;
        while i < self.validators.len()
            invariant
                i <= self.validators@.len(),
                vals@ == self.validators@.subrange(0, i as int),
            decreases self.validators@.len() - i,
        {
            vals.push(self.validators[i]);
            i = i + 1;
            assert(vals@ =~= self.validators@.subrange(0, i as int));
        }
        assert(vals@ =~= self.validators@);
        ValidatorSet { validators: vals, hash: self.hash }
    }

    /// Whether the set is well formed; computed without overflow.
    pub fn is_valid(&self) -> (r: bool)
        ensures
            r == self.wf(),
    {
        let v = &self.validators;
        if v.len() == 0 {
            return false;
        }
        let mut sum: u64 = 0;
        let mut i: usize = 0;
        while i < v.len()
            invariant
                v@ == self.validators@,
                i <= v@.len(),
                sum == total_power(v@.subrange(0, i as int)),
                forall|k: int| 0 <= k < i ==> #[trigger] v@[k].voting_power > 0,
                forall|a: int, b: int|
                    0 <= a < b < i ==> #[trigger] v@[a].address != #[trigger] v@[b].address,
            decreases v@.len() - i,
        {
            assert(v@.subrange(0, i as int + 1).drop_last() =~= v@.subrange(0, i as int));
            if v[i].voting_power == 0 {
                assert(!(self.validators@[i as int].voting_power > 0));
                return false;
            }
            let mut j: usize = 0;
            while j < i
                invariant
                    v@ == self.validators@,
                    i < v@.len(),
                    j <= i,
                    forall|k: int| 0 <= k < j ==> v@[k].address != v@[i as int].address,
                decreases i - j,
            {
                if v[j].address == v[i].address {
                    assert(self.validators@[j as int].address == self.validators@[i as int].address);
                    return false;
                }
                j = j + 1;
            }
            match sum.checked_add(v[i].voting_power) {
                Some(s) => {
                    sum = s;
                },
                None => {
                    proof {
                        lemma_total_power_prefix_bound(v@, i as int + 1);
                        assert(total_power(v@.subrange(0, i as int + 1)) == sum + v@[i as int].voting_power);
                    }
                    return false;
                },
            }
            i = i + 1;
        }
        assert(v@.subrange(0, i as int) =~= v@);
        true
    }

    /// Sum of the members' voting power.
    pub fn total_voting_power(&self) -> (r: u64)
        requires
            self.wf(),
        ensures
            r == total_power(self.validators@),
    {
        let v = &self.validators;
        let mut sum: u64 = 0;
        let mut i: usize = 0;
        while i < v.len()
            invariant
                self.wf(),
                v == &self.validators,
                i <= v@.len(),
                sum == total_power(v@.subrange(0, i as int)),
            decreases v@.len() - i,
        {
            assert(v@.subrange(0, i as int + 1).drop_last() =~= v@.subrange(0, i as int));
            proof {
                lemma_total_power_prefix_bound(v@, i as int + 1);
            }
            sum = sum + v[i].voting_power;
            i = i + 1;
        }
        assert(v@.subrange(0, i as int) =~= v@);
        sum
    }
}

/// The power of a prefix never exceeds the power of the whole sequence.
pub proof fn lemma_total_power_prefix_bound(v: Seq<Validator>, n: int)
    requires
        0 <= n <= v.len(),
    ensures
        total_power(v.subrange(0, n)) <= total_power(v),
    decreases v.len() - n,
{
    if n < v.len() {
        lemma_total_power_prefix_bound(v, n + 1);
        assert(v.subrange(0, n + 1).drop_last() =~= v.subrange(0, n));
    } else {
        assert(v.subrange(0, n) =~= v);
    }
}

/// A block header, with its self-hash as computed over the canonical encoding.
#[derive(Clone, Copy, Debug, PartialEq, Eq, Structural)]
pub struct Header {
    pub chain_id: u64,
    pub height: Height,
    pub time: Time,
    /// Hash of the previous block; absent at height 1.
    pub last_block_id: Option<Hash>,
    pub validators_hash: Hash,
    pub next_validators_hash: Hash,
    pub app_hash: Hash,
    pub hash: Hash,
}

/// One validator's entry in a commit.
#[derive(Clone, Copy, Debug, PartialEq, Eq, Structural)]
pub enum CommitSig {
    /// No vote received.
    Absent,
    /// A vote for no block.
    Nil { address: u64 },
    /// A vote for the committed block; `signature_valid` is the outcome of
    /// checking the signature over the canonical sign-bytes.
    Commit { address: u64, pub_key: u64, timestamp: Time, signature_valid: bool },
}

/// A set of signed votes for the block `block_id` at `height`.
#[derive(Debug)]
pub struct Commit {
    pub height: Height,
    pub block_id: Hash,
    pub signatures: Vec<CommitSig>,
}

impl Commit {
    pub open spec fn same_as(&self, other: &Commit) -> bool {
        self.height == other.height && self.block_id == other.block_id
            && self.signatures@ == other.signatures@
    }

    /// A copy holding the same votes.
    pub fn copy(&self) -> (r: Commit)
        ensures
            r.same_as(self),
    {
        let mut sigs: Vec<CommitSig> = Vec::new();
        let mut i: usize = 0;
        while i < self.signatures.len()
            invariant
                i <= self.signatures@.len(),
                sigs@ == self.signatures@.subrange(0, i as int),
            decreases self.signatures@.len() - i,
        {
            sigs.push(self.signatures[i]);
            i = i + 1;
            assert(sigs@ =~= self.signatures@.subrange(0, i as int));
        }
        assert(sigs@ =~= self.signatures@);
        Commit { height: self.height, block_id: self.block_id, signatures: sigs }
    }
}

/// A header together with the commit that signs it.
#[derive(Debug)]
pub struct SignedHeader {
    pub header: Header,
    pub commit: Commit,
}

/// A header, its commit, the validator sets for this and the next height, and
/// the peer that provided it.
#[derive(Debug)]
pub struct LightBlock {
    pub signed_header: SignedHeader,
    pub validators: ValidatorSet,
    pub next_validators: ValidatorSet,
    pub provider: PeerId,
}

impl LightBlock {
    pub open spec fn height_spec(&self) -> Height {
        self.signed_header.header.height
    }

    pub open spec fn time_spec(&self) -> Time {
        self.signed_header.header.time
    }

    /// The two blocks hold the same values.
    pub open spec fn same_as(&self, other: &LightBlock) -> bool {
        &&& self.signed_header.header == other.signed_header.header
        &&& self.signed_header.commit.same_as(&other.signed_header.commit)
        &&& self.validators.same_as(&other.validators)
        &&& self.next_validators.same_as(&other.next_validators)
        &&& self.provider == other.provider
    }

    #[verifier::when_used_as_spec(height_spec)]
    pub fn height(&self) -> (r: Height)
        ensures
            r == self.height_spec(),
    {
        self.signed_header.header.height
    }

    #[verifier::when_used_as_spec(time_spec)]
    pub fn time(&self) -> (r: Time)
        ensures
            r == self.time_spec(),
    {
        self.signed_header.header.time
    }

    /// A copy holding the same values.
    pub fn copy(&self) -> (r: LightBlock)
        ensures
            r.same_as(self),
    {
        LightBlock {
            signed_header: SignedHeader {
                header: self.signed_header.header,
                commit: self.signed_header.commit.copy(),
            },
            validators: self.validators.copy(),
            next_validators: self.next_validators.copy(),
            provider: self.provider,
        }
    }
}

/// A fraction `numerator / denominator` of voting power.
#[derive(Clone, Copy, Debug, PartialEq, Eq, Structural)]
pub struct TrustThreshold {
    pub numerator: u64,
    pub denominator: u64,
}

impl TrustThreshold {
    /// Lies between one third and one, inclusive.
    pub open spec fn wf(&self) -> bool {
        &&& self.denominator > 0
        &&& 3 * self.numerator >= self.denominator
        &&& self.numerator <= self.denominator
    }

    /// The threshold `numerator / denominator`, or `None` outside `[1/3, 1]`.
    pub fn new(numerator: u64, denominator: u64) -> (r: Option<TrustThreshold>)
        ensures
            r == (if (TrustThreshold { numerator, denominator }).wf() {
                Some(TrustThreshold { numerator, denominator })
            } else {
                None::<TrustThreshold>
            }),
    {
        let t = TrustThreshold { numerator, denominator };
        if denominator > 0 && 3 * (numerator as u128) >= denominator as u128 && numerator
            <= denominator {
            Some(t)
        } else {
            None
        }
    }

    /// One third.
    pub fn one_third() -> (r: TrustThreshold)
        ensures
            r.numerator == 1 && r.denominator == 3,
            r.wf(),
    {
        TrustThreshold { numerator: 1, denominator: 3 }
    }
}

/// Verification parameters; durations in seconds.
#[derive(Clone, Copy, Debug, PartialEq, Eq, Structural)]
pub struct Options {
    /// Fraction of trusted voting power that must co-sign a skipping hop.
    pub trust_threshold: TrustThreshold,
    /// How long a validator set is trusted for (shorter than the unbonding period).
    pub trusting_period: u64,
    /// How far the local clock may lag behind a block's timestamp.
    pub clock_drift: u64,
}

/// Verification status of a block in the light store.
#[derive(Clone, Copy, Debug, PartialEq, Eq, Structural)]
pub enum Status {
    Unverified,
    Verified,
    Trusted,
    Failed,
}

/// Status changes the store allows: staying put, or moving along
/// `Unverified -> Verified -> Trusted`, or `Unverified -> Failed`.
pub open spec fn allowed_transition(from: Status, to: Status) -> bool {
    from == to || (from == Status::Unverified) || (from == Status::Verified && to
        == Status::Trusted)
}

pub fn is_allowed_transition(from: Status, to: Status) -> (r: bool)
    ensures
        r == allowed_transition(from, to),
{
    match (from, to) {
        (Status::Unverified, _) => true,
        (Status::Verified, Status::Trusted) => true,
        (Status::Verified, Status::Verified) => true,
        (Status::Trusted, Status::Trusted) => true,
        (Status::Failed, Status::Failed) => true,
        _ => false,
    }
}

} // verus!
