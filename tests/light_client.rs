use tendermint_light_client::{
    AtHeight, Clock, Commit, CommitSig, Error, Header, Io, IoError, LightBlock, LightClient,
    LightStore, Options, SignedHeader, State, Status, TrustThreshold, Validator, ValidatorSet,
    VerificationError, accept_fetched, next_step, Step, StoreError, Verdict,
};

const PEER: u64 = 7;
const NOW: u64 = 10_000;
const TRUSTING_PERIOD: u64 = 5_000;
const CLOCK_DRIFT: u64 = 10;

struct FixedClock(u64);

impl Clock for FixedClock {
    fn now(&self) -> u64 {
        self.0
    }
}

/// Serves blocks from a generator and records every height asked for.
struct MockIo {
    make: fn(u64) -> LightBlock,
    highest: u64,
    fetches: Vec<u64>,
}

impl Io for MockIo {
    fn fetch_light_block(&mut self, target: AtHeight) -> Result<LightBlock, IoError> {
        let h = match target {
            AtHeight::At(h) => h,
            AtHeight::Highest => self.highest,
        };
        self.fetches.push(h);
        if h > self.highest {
            return Err(IoError::HeightNotFound);
        }
        Ok((self.make)(h))
    }
}

fn options() -> Options {
    Options {
        trust_threshold: TrustThreshold::one_third(),
        trusting_period: TRUSTING_PERIOD,
        clock_drift: CLOCK_DRIFT,
    }
}

fn validator_set(addresses: &[u64], hash: u64) -> ValidatorSet {
    ValidatorSet {
        validators: addresses
            .iter()
            .map(|a| Validator { address: *a, pub_key: 100 + *a, voting_power: 1 })
            .collect(),
        hash,
    }
}

fn vote(address: u64) -> CommitSig {
    CommitSig::Commit { address, pub_key: 100 + address, timestamp: 0, signature_valid: true }
}

/// A block at `height` signed by `signers`, with validator sets given by address.
fn block_with(
    height: u64,
    time: u64,
    vals: &[u64],
    vals_hash: u64,
    next: &[u64],
    next_hash: u64,
    signers: &[u64],
) -> LightBlock {
    let header = Header {
        chain_id: 1,
        height,
        time,
        last_block_id: if height > 1 { Some(1000 + height - 1) } else { None },
        validators_hash: vals_hash,
        next_validators_hash: next_hash,
        app_hash: 0,
        hash: 1000 + height,
    };
    let commit = Commit {
        height,
        block_id: 1000 + height,
        signatures: signers.iter().map(|a| vote(*a)).collect(),
    };
    LightBlock {
        signed_header: SignedHeader { header, commit },
        validators: validator_set(vals, vals_hash),
        next_validators: validator_set(next, next_hash),
        provider: PEER,
    }
}

fn block_time(h: u64) -> u64 {
    NOW - 1000 + h
}

/// Nine validators that never change.
fn stable_block(h: u64) -> LightBlock {
    let v: Vec<u64> = (1..=9).collect();
    block_with(h, block_time(h), &v, 5000, &v, 5000, &v)
}

/// Nine validators; one is rotated out at each height.
fn rotating_set(h: u64) -> Vec<u64> {
    (h..h + 9).collect()
}

fn rotating_block(h: u64) -> LightBlock {
    let v = rotating_set(h);
    let n = rotating_set(h + 1);
    block_with(h, block_time(h), &v, 5000 + h, &n, 5000 + h + 1, &v)
}

/// A fresh set of nine validators at every height.
fn disjoint_set(h: u64) -> Vec<u64> {
    (10 * h..10 * h + 9).collect()
}

fn disjoint_block(h: u64) -> LightBlock {
    let v = disjoint_set(h);
    let n = disjoint_set(h + 1);
    block_with(h, block_time(h), &v, 5000 + h, &n, 5000 + h + 1, &v)
}

fn anchored_state(anchor: LightBlock) -> State {
    let mut store = LightStore::new();
    store.insert(anchor, Status::Trusted).unwrap();
    State { light_store: store }
}

fn client(make: fn(u64) -> LightBlock, highest: u64) -> LightClient<FixedClock, MockIo> {
    LightClient::new(PEER, options(), FixedClock(NOW), MockIo { make, highest, fetches: Vec::new() })
}

fn status_at(state: &State, h: u64) -> Option<Status> {
    state.light_store.get(h).map(|(_, s)| s)
}

fn failed_count(state: &State, up_to: u64) -> usize {
    (1..=up_to).filter(|h| status_at(state, *h) == Some(Status::Failed)).count()
}

#[test]
fn adjacent_trivial() {
    let mut state = anchored_state(stable_block(1));
    let mut c = client(stable_block, 2);
    let b = c.verify_to_target(2, &mut state).unwrap();
    assert_eq!(b.height(), 2);
    assert_eq!(status_at(&state, 2), Some(Status::Trusted));
    assert_eq!(c.io.fetches, vec![2]);
}

#[test]
fn skipping_by_bisection() {
    let mut state = anchored_state(rotating_block(1));
    let mut c = client(rotating_block, 100);
    let b = c.verify_to_target(100, &mut state).unwrap();
    assert_eq!(b.height(), 100);
    assert_eq!(status_at(&state, 100), Some(Status::Trusted));
    assert_eq!(failed_count(&state, 100), 0);
    assert!(c.io.fetches.len() < 99);
    assert_eq!(state.light_store.latest_trusted().unwrap().height(), 100);
}

#[test]
fn skipping_fails_trust_threshold() {
    let mut state = anchored_state(disjoint_block(1));
    let mut c = client(disjoint_block, 10);
    let b = c.verify_to_target(10, &mut state).unwrap();
    assert_eq!(b.height(), 10);
    assert_eq!(status_at(&state, 2), Some(Status::Trusted));
    assert_eq!(status_at(&state, 10), Some(Status::Trusted));
    assert_eq!(failed_count(&state, 10), 0);
    assert!(c.io.fetches.len() <= 9);
    let mut distinct = c.io.fetches.clone();
    distinct.sort();
    distinct.dedup();
    assert_eq!(distinct.len(), c.io.fetches.len());
}

fn expired_anchor(h: u64) -> LightBlock {
    let v: Vec<u64> = (1..=9).collect();
    let time = if h == 1 { NOW - TRUSTING_PERIOD - 1 } else { block_time(h) };
    block_with(h, time, &v, 5000, &v, 5000, &v)
}

#[test]
fn expired_trust() {
    let mut state = anchored_state(expired_anchor(1));
    let mut c = client(expired_anchor, 5);
    assert_eq!(c.verify_to_target(5, &mut state).unwrap_err(), Error::TrustedStateExpired);
    assert!(c.io.fetches.is_empty());
}

fn future_block(h: u64) -> LightBlock {
    let v: Vec<u64> = (1..=9).collect();
    let time = if h == 2 { NOW + CLOCK_DRIFT + 1 } else { block_time(h) };
    block_with(h, time, &v, 5000, &v, 5000, &v)
}

#[test]
fn future_header() {
    let mut state = anchored_state(stable_block(1));
    let mut c = client(future_block, 2);
    assert_eq!(
        c.verify_to_target(2, &mut state).unwrap_err(),
        Error::InvalidLightBlock(VerificationError::HeaderFromFuture)
    );
    assert_eq!(status_at(&state, 2), Some(Status::Failed));
}

fn two_thirds_block(h: u64) -> LightBlock {
    let v: Vec<u64> = (1..=9).collect();
    let signers: Vec<u64> = if h == 2 { (1..=6).collect() } else { v.clone() };
    block_with(h, block_time(h), &v, 5000, &v, 5000, &signers)
}

#[test]
fn invalid_commit_exactly_two_thirds() {
    let mut state = anchored_state(stable_block(1));
    let mut c = client(two_thirds_block, 2);
    assert_eq!(
        c.verify_to_target(2, &mut state).unwrap_err(),
        Error::InvalidLightBlock(VerificationError::InsufficientVotingPower)
    );
    assert_eq!(status_at(&state, 2), Some(Status::Failed));
}

#[test]
fn trust_stays_after_success() {
    let mut state = anchored_state(stable_block(1));
    let mut c = client(stable_block, 8);
    c.verify_to_target(5, &mut state).unwrap();
    c.verify_to_target(8, &mut state).unwrap();
    assert!(state.light_store.latest_trusted().unwrap().height() >= 5);
    assert_eq!(status_at(&state, 5), Some(Status::Trusted));
}

#[test]
fn second_call_fetches_nothing() {
    let mut state = anchored_state(rotating_block(1));
    let mut c = client(rotating_block, 20);
    let first = c.verify_to_target(20, &mut state).unwrap();
    let fetched = c.io.fetches.len();
    let second = c.verify_to_target(20, &mut state).unwrap();
    assert_eq!(c.io.fetches.len(), fetched);
    assert_eq!(first.signed_header.header, second.signed_header.header);
}

#[test]
fn fetch_once_per_height() {
    let mut state = anchored_state(stable_block(1));
    let mut c = client(stable_block, 5);
    let (b1, s1) = c.get_or_fetch_block(3, &mut state).unwrap();
    let (b2, s2) = c.get_or_fetch_block(3, &mut state).unwrap();
    assert_eq!(c.io.fetches, vec![3]);
    assert_eq!(b1.signed_header.header, b2.signed_header.header);
    assert_eq!(s1, Status::Unverified);
    assert_eq!(s2, Status::Unverified);
    assert_eq!(b1.provider, PEER);
}

#[test]
fn fetch_error_propagates() {
    let mut state = anchored_state(stable_block(1));
    let mut c = client(stable_block, 3);
    assert_eq!(c.verify_to_target(5, &mut state).unwrap_err(), Error::Io(IoError::HeightNotFound));
}

fn wrong_height_block(h: u64) -> LightBlock {
    stable_block(h + 1)
}

#[test]
fn fetched_block_at_wrong_height_is_rejected() {
    let mut state = anchored_state(stable_block(1));
    let mut c = client(wrong_height_block, 5);
    assert_eq!(c.get_or_fetch_block(3, &mut state).unwrap_err(), Error::Io(IoError::InvalidBlock));
    assert_eq!(status_at(&state, 3), None);
}

#[test]
fn no_initial_trusted_state() {
    let mut state = State { light_store: LightStore::new() };
    let mut c = client(stable_block, 5);
    assert_eq!(c.verify_to_target(3, &mut state).unwrap_err(), Error::NoInitialTrustedState);
    assert!(c.io.fetches.is_empty());
}

#[test]
fn target_below_trusted() {
    let mut state = anchored_state(stable_block(4));
    let mut c = client(stable_block, 5);
    assert_eq!(c.verify_to_target(3, &mut state).unwrap_err(), Error::TargetBelowTrusted);
}

#[test]
fn target_equal_to_trusted() {
    let mut state = anchored_state(stable_block(4));
    let mut c = client(stable_block, 5);
    let b = c.verify_to_target(4, &mut state).unwrap();
    assert_eq!(b.height(), 4);
    assert!(c.io.fetches.is_empty());
}

#[test]
fn verify_to_highest_reaches_tip() {
    let mut state = anchored_state(stable_block(1));
    let mut c = client(stable_block, 6);
    let b = c.verify_to_highest(&mut state).unwrap();
    assert_eq!(b.height(), 6);
    assert_eq!(status_at(&state, 6), Some(Status::Trusted));
}

#[test]
fn verify_at_given_time() {
    let mut state = anchored_state(stable_block(1));
    let mut c = client(stable_block, 3);
    assert_eq!(
        c.verify_to_target_at(3, &mut state, NOW + TRUSTING_PERIOD).unwrap_err(),
        Error::TrustedStateExpired
    );
    let b = c.verify_to_target_at(3, &mut state, NOW).unwrap();
    assert_eq!(b.height(), 3);
}

#[test]
fn from_boxed_parts() {
    let c = LightClient::from_boxed(
        PEER,
        options(),
        Box::new(FixedClock(NOW)),
        Box::new(MockIo { make: stable_block, highest: 1, fetches: Vec::new() }),
    );
    assert_eq!(c.peer, PEER);
    assert_eq!(c.options, options());
}

#[test]
fn accept_fetched_checks_and_stores() {
    let mut store = LightStore::new();
    assert_eq!(
        accept_fetched(PEER, 3, stable_block(4), &mut store).unwrap_err(),
        Error::Io(IoError::InvalidBlock)
    );
    let mut foreign = stable_block(3);
    foreign.provider = PEER + 1;
    assert_eq!(accept_fetched(PEER, 3, foreign, &mut store).unwrap_err(), Error::Io(IoError::InvalidBlock));
    assert!(store.get(3).is_none());
    let (b, st) = accept_fetched(PEER, 3, stable_block(3), &mut store).unwrap();
    assert_eq!(b.height(), 3);
    assert_eq!(st, Status::Unverified);
    assert_eq!(store.get(3).unwrap().1, Status::Unverified);
    let mut other = stable_block(3);
    other.signed_header.header.app_hash = 9;
    assert_eq!(
        accept_fetched(PEER, 3, other, &mut store).unwrap_err(),
        Error::Store(StoreError::ConflictingBlock)
    );
    store.update(3, Status::Failed).unwrap();
    assert_eq!(
        accept_fetched(PEER, 3, stable_block(3), &mut store).unwrap_err(),
        Error::Store(StoreError::ForbiddenTransition)
    );
}

#[test]
fn next_step_follows_verdict() {
    assert_eq!(next_step(1, 10, 10, Verdict::Verified), Step::Trust);
    assert_eq!(next_step(1, 5, 10, Verdict::Verified), Step::Advance);
    assert_eq!(next_step(1, 10, 10, Verdict::NotEnoughTrust), Step::Retry(5));
    assert_eq!(next_step(4, 5, 10, Verdict::NotEnoughTrust), Step::Stuck);
    assert_eq!(
        next_step(1, 10, 10, Verdict::Invalid(VerificationError::HeaderFromFuture)),
        Step::Reject(VerificationError::HeaderFromFuture)
    );
}

#[test]
fn stored_block_from_other_peer_is_refetched() {
    let mut state = anchored_state(stable_block(1));
    let mut foreign = stable_block(3);
    foreign.provider = PEER + 1;
    state.light_store.insert(foreign, Status::Unverified).unwrap();
    let mut c = client(stable_block, 5);
    let (b, _) = c.get_or_fetch_block(3, &mut state).unwrap();
    assert_eq!(b.provider, PEER);
    assert_eq!(c.io.fetches, vec![3]);
    assert_eq!(state.light_store.get(3).unwrap().0.provider, PEER);
}

#[test]
fn stored_candidate_verified_without_fetch() {
    let mut state = anchored_state(stable_block(1));
    state.light_store.insert(stable_block(2), Status::Unverified).unwrap();
    let mut c = client(stable_block, 5);
    let b = c.verify_to_target(2, &mut state).unwrap();
    assert_eq!(b.height(), 2);
    assert!(c.io.fetches.is_empty());
    assert_eq!(status_at(&state, 2), Some(Status::Trusted));
}

#[test]
fn stored_candidate_rejected_is_failed() {
    let mut state = anchored_state(stable_block(1));
    state.light_store.insert(two_thirds_block(2), Status::Unverified).unwrap();
    let mut c = client(stable_block, 5);
    assert_eq!(
        c.verify_to_target(2, &mut state).unwrap_err(),
        Error::InvalidLightBlock(VerificationError::InsufficientVotingPower)
    );
    assert_eq!(status_at(&state, 2), Some(Status::Failed));
    assert!(c.io.fetches.is_empty());
}

#[test]
fn unknown_validator_bad_signature_ignored() {
    let mut state = anchored_state(stable_block(1));
    let mut b2 = stable_block(2);
    b2.signed_header.commit.signatures.push(CommitSig::Commit {
        address: 500,
        pub_key: 600,
        timestamp: 0,
        signature_valid: false,
    });
    state.light_store.insert(b2, Status::Unverified).unwrap();
    let mut c = client(stable_block, 5);
    assert_eq!(c.verify_to_target(2, &mut state).unwrap().height(), 2);
}
