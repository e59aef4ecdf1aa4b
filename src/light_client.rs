use vstd::prelude::*;

use crate::scheduler::{bisect, schedule};
use crate::store::{highest_result, lemma_lifecycle_trans, lifecycle_kept, is_highest, trust_kept, trusted_at, LightStore, StoreError};
use crate::types::{allowed_transition, Height, LightBlock, Options, PeerId, Status, Time};
use crate::verification::{verdict, verify, within_trust_period, Verdict, VerificationError};

verus! {

/// Which block to fetch.
#[derive(Clone, Copy, Debug, PartialEq, Eq, Structural)]
pub enum AtHeight {
    At(Height),
    Highest,
}

/// Failures reported by a block provider.
#[derive(Clone, Copy, Debug, PartialEq, Eq, Structural)]
pub enum IoError {
    Timeout,
    HeightNotFound,
    InvalidBlock,
    Transport,
    Canceled,
}

/// Errors of the light client.
#[derive(Clone, Copy, Debug, PartialEq, Eq, Structural)]
pub enum Error {
    Io(IoError),
    Store(StoreError),
    NoInitialTrustedState,
    TargetBelowTrusted,
    TrustedStateExpired,
    InvalidLightBlock(VerificationError),
    NoProgress,
}

/// Source of the local time, in seconds.
pub trait Clock {
    fn now(&self) -> Time;
}

/// Fetches light blocks from the peer a client is bound to.
pub trait Io {
    fn fetch_light_block(&mut self, target: AtHeight) -> Result<LightBlock, IoError>;
}

/// The light store a verification works on.
pub struct State {
    pub light_store: LightStore,
}

/// Every trusted height of `m` is at most `bound`.
pub open spec fn trusted_below(m: Map<Height, (LightBlock, Status)>, bound: Height) -> bool {
    forall|h: Height| #[trigger] trusted_at(m, h) ==> h <= bound
}

/// `m1` and `m2` trust the same heights.
pub open spec fn same_trust(
    m1: Map<Height, (LightBlock, Status)>,
    m2: Map<Height, (LightBlock, Status)>,
) -> bool {
    forall|h: Height| #[trigger] trusted_at(m1, h) == trusted_at(m2, h)
}

/// `m` holds a block at `h` whose status is not `Failed`.
pub open spec fn holds_non_failed(m: Map<Height, (LightBlock, Status)>, h: Height) -> bool {
    m.contains_key(h) && m[h].1 != Status::Failed
}

/// After a successful verification up to `target`, the latest trusted block
/// is the one at `target`, so a second call returns it without fetching.
pub proof fn lemma_idempotent(
    m: Map<Height, (LightBlock, Status)>,
    target: Height,
    latest: Option<LightBlock>,
)
    requires
        trusted_at(m, target),
        trusted_below(m, target),
        highest_result(m, Status::Trusted, latest),
    ensures
        latest is Some,
        latest.unwrap().height() == target,
{
    assert(trusted_at(m, latest.unwrap().height()));
}

/// Trust kept from `m0` to `m1` and unchanged from `m1` to `m2` is kept from `m0` to `m2`.
proof fn lemma_trust_chain(
    m0: Map<Height, (LightBlock, Status)>,
    m1: Map<Height, (LightBlock, Status)>,
    m2: Map<Height, (LightBlock, Status)>,
)
    requires
        trust_kept(m0, m1),
        same_trust(m1, m2),
    ensures
        trust_kept(m0, m2),
        forall|b: Height| trusted_below(m1, b) ==> #[trigger] trusted_below(m2, b),
{
    assert forall|b: Height| trusted_below(m1, b) implies #[trigger] trusted_below(m2, b) by {
        assert forall|h: Height| #[trigger] trusted_at(m2, h) implies h <= b by {
            assert(trusted_at(m1, h));
        }
    }
    assert forall|h: Height| trusted_at(m0, h) implies #[trigger] trusted_at(m2, h) by {
        assert(trusted_at(m1, h));
    }
}

/// Setting the entry at `h` keeps every trusted height at most `bound`,
/// provided a trusted entry is only set at or below `bound`.
proof fn lemma_below_kept(
    m: Map<Height, (LightBlock, Status)>,
    h: Height,
    v: (LightBlock, Status),
    bound: Height,
)
    requires
        trusted_below(m, bound),
        v.1 == Status::Trusted ==> h <= bound,
    ensures
        trusted_below(m.insert(h, v), bound),
{
    assert forall|h2: Height| #[trigger] trusted_at(m.insert(h, v), h2) implies h2 <= bound by {
        if h2 != h {
            assert(trusted_at(m, h2));
        }
    }
}

/// `t` is (a copy of) the trusted block of greatest height in `m`.
pub open spec fn is_latest_trusted(m: Map<Height, (LightBlock, Status)>, t: LightBlock) -> bool {
    is_highest(m, Status::Trusted, t)
}

/// `m` holds a block at `h`, not `Failed`, that came from `peer`.
pub open spec fn usable(m: Map<Height, (LightBlock, Status)>, h: Height, peer: PeerId) -> bool {
    m.contains_key(h) && m[h].1 != Status::Failed && m[h].0.provider == peer
}

/// `block` may be stored at `h` as `Unverified`: nothing is there yet, or the
/// same header is there with a status that may return to `Unverified`.
pub open spec fn storable(m: Map<Height, (LightBlock, Status)>, h: Height, block: LightBlock) -> bool {
    !m.contains_key(h) || (m[h].0.signed_header.header == block.signed_header.header
        && allowed_transition(m[h].1, Status::Unverified))
}

/// The result `r` and store `after` of accepting `block`, fetched from `peer`
/// for height `h`, into the store `before`.
pub open spec fn accept_outcome(
    peer: PeerId,
    h: Height,
    block: LightBlock,
    before: Map<Height, (LightBlock, Status)>,
    r: Result<(LightBlock, Status), Error>,
    after: Map<Height, (LightBlock, Status)>,
) -> bool {
    if block.height() != h || block.provider != peer {
        r == Err::<(LightBlock, Status), Error>(Error::Io(IoError::InvalidBlock)) && after == before
    } else if storable(before, h, block) {
        &&& r matches Ok((b, st)) && b.same_as(&block) && st == Status::Unverified
        &&& after == before.insert(h, (block, Status::Unverified))
    } else if before[h].0.signed_header.header != block.signed_header.header {
        r == Err::<(LightBlock, Status), Error>(Error::Store(StoreError::ConflictingBlock))
            && after == before
    } else {
        r == Err::<(LightBlock, Status), Error>(Error::Store(StoreError::ForbiddenTransition))
            && after == before
    }
}

/// Checks a block fetched from `peer` for height `h` and stores it as `Unverified`.
pub fn accept_fetched(peer: PeerId, h: Height, block: LightBlock, store: &mut LightStore) -> (r:
    Result<(LightBlock, Status), Error>)
    requires
        old(store).wf(),
    ensures
        final(store).wf(),
        accept_outcome(peer, h, block, old(store)@, r, final(store)@),
        same_trust(old(store)@, final(store)@),
        lifecycle_kept(old(store)@, final(store)@),
{
    if block.height() != h || block.provider != peer {
        return Err(Error::Io(IoError::InvalidBlock));
    }
    let kept = block.copy();
    let ghost before = store@;
    match store.insert(block, Status::Unverified) {
        Ok(()) => {},
        Err(e) => {
            return Err(Error::Store(e));
        },
    }
    proof {
        assert(same_trust(before, store@));
    }
    Ok((kept, Status::Unverified))
}

/// `m` holds a `Failed` block at some height that the verifier rejects with
/// `e` against some block of lower height.
pub open spec fn rejected_in(
    m: Map<Height, (LightBlock, Status)>,
    opts: Options,
    now: Time,
    e: VerificationError,
) -> bool {
    exists|t: LightBlock, h: Height|
        #[trigger] m.contains_key(h) && m[h].1 == Status::Failed && t.height() < h && #[trigger] verdict(
            &t,
            &m[h].0,
            opts,
            now,
        ) == Verdict::Invalid(e)
}

/// What the verification loop does after a verdict on the block at `current`.
#[derive(Clone, Copy, Debug, PartialEq, Eq, Structural)]
pub enum Step {
    /// The target verified: trust it and the blocks verified on the way.
    Trust,
    /// An intermediate block verified: it becomes the trusted block, and the
    /// target is tried again.
    Advance,
    /// Too little trust: try this lower height next.
    Retry(Height),
    /// The block is invalid: mark it failed and stop with this reason.
    Reject(VerificationError),
    /// Too little trust on an adjacent hop: no lower height is left.
    Stuck,
}

/// The step after verdict `v` on the block at `current`, trusting the block
/// at `trusted_height`, towards `target`.
pub open spec fn step_of(trusted_height: Height, current: Height, target: Height, v: Verdict) -> Step {
    match v {
        Verdict::Verified => if current == target {
            Step::Trust
        } else {
            Step::Advance
        },
        Verdict::NotEnoughTrust => if current == trusted_height + 1 {
            Step::Stuck
        } else {
            Step::Retry(bisect(trusted_height, current))
        },
        Verdict::Invalid(e) => Step::Reject(e),
    }
}

/// Decides the step after verdict `v` on the block at `current`.
pub fn next_step(trusted_height: Height, current: Height, target: Height, v: Verdict) -> (r: Step)
    requires
        trusted_height < current <= target,
    ensures
        r == step_of(trusted_height, current, target, v),
        r matches Step::Retry(n) ==> trusted_height < n < current,
{
    match v {
        Verdict::Verified => if current == target {
            Step::Trust
        } else {
            Step::Advance
        },
        Verdict::NotEnoughTrust => if current == trusted_height + 1 {
            Step::Stuck
        } else {
            Step::Retry(schedule(trusted_height, current))
        },
        Verdict::Invalid(e) => Step::Reject(e),
    }
}

/// `r` is one of the errors raised before any block is fetched.
pub open spec fn is_early_error(r: Result<LightBlock, Error>) -> bool {
    r == Err::<LightBlock, Error>(Error::NoInitialTrustedState) || r == Err::<LightBlock, Error>(
        Error::TargetBelowTrusted,
    ) || r == Err::<LightBlock, Error>(Error::TrustedStateExpired)
}

/// What a verification up to `target` from the store `before` may end in, for
/// some reading `now` of the clock: a stored candidate at the target verified
/// or rejected as its verdict says, the early errors exactly on their inputs
/// and with the store untouched, the trusted target returned as it is, trust
/// never lost, a rejected block left `Failed`, and on success the target
/// trusted and nothing above it.
pub open spec fn outcome(
    before: Map<Height, (LightBlock, Status)>,
    after: Map<Height, (LightBlock, Status)>,
    target: Height,
    opts: Options,
    peer: PeerId,
    r: Result<LightBlock, Error>,
) -> bool {
    &&& trust_kept(before, after)
    &&& lifecycle_kept(before, after)
    &&& forall|t: LightBlock|
        #[trigger] is_latest_trusted(before, t) && t.height() < target && stored_candidate(
            before,
            target,
            peer,
        ) ==> exists|now: Time|
            {
                ||| within_trust_period(t.time(), opts, now) && stored_outcome(
                    before,
                    after,
                    target,
                    verdict(&t, &before[target].0, opts, now),
                    r,
                )
                ||| !within_trust_period(t.time(), opts, now) && r == Err::<LightBlock, Error>(
                    Error::TrustedStateExpired,
                )
            }
    &&& (forall|h: Height| !#[trigger] trusted_at(before, h)) <==> r == Err::<LightBlock, Error>(
        Error::NoInitialTrustedState,
    )
    &&& (exists|h: Height| #[trigger] trusted_at(before, h) && h > target) <==> r == Err::<
        LightBlock,
        Error,
    >(Error::TargetBelowTrusted)
    &&& r == Err::<LightBlock, Error>(Error::TrustedStateExpired) ==> exists|t: LightBlock|
        #[trigger] is_latest_trusted(before, t) && t.height() < target
    &&& is_early_error(r) ==> after == before
    &&& (trusted_at(before, target) && trusted_below(before, target)) ==> {
        &&& r matches Ok(b) && b.same_as(&before[target].0)
        &&& after == before
    }
    &&& r != Err::<LightBlock, Error>(Error::NoProgress)
    &&& (r matches Ok(b) && !trusted_at(before, target)) ==> r->Ok_0.provider == peer
    &&& r matches Err(Error::InvalidLightBlock(e)) ==> exists|now: Time|
        rejected_in(after, opts, now, e)
    &&& r matches Ok(b) ==> {
        &&& b.height() == target
        &&& trusted_at(after, target)
        &&& b.same_as(&after[target].0)
        &&& trusted_below(after, target)
    }
}

/// The store already holds, at `target`, an `Unverified` block from `peer`.
pub open spec fn stored_candidate(m: Map<Height, (LightBlock, Status)>, target: Height, peer: PeerId) -> bool {
    usable(m, target, peer) && m[target].1 == Status::Unverified
}

/// What verifying a stored candidate with verdict `v` ends in: a verified one
/// is returned, an invalid one is marked `Failed` and reported.
pub open spec fn stored_outcome(
    before: Map<Height, (LightBlock, Status)>,
    after: Map<Height, (LightBlock, Status)>,
    target: Height,
    v: Verdict,
    r: Result<LightBlock, Error>,
) -> bool {
    match v {
        Verdict::Verified => r matches Ok(b) && b.same_as(&before[target].0),
        Verdict::Invalid(e) => r == Err::<LightBlock, Error>(Error::InvalidLightBlock(e))
            && after.contains_key(target) && after[target].1 == Status::Failed,
        Verdict::NotEnoughTrust => true,
    }
}

/// Blocks holding the same values get the same verdict.
proof fn lemma_verdict_same(
    t1: &LightBlock,
    t2: &LightBlock,
    u1: &LightBlock,
    u2: &LightBlock,
    opts: Options,
    now: Time,
)
    requires
        t1.same_as(t2),
        u1.same_as(u2),
    ensures
        verdict(t1, u1, opts, now) == verdict(t2, u2, opts, now),
{
}

/// A light client bound to one peer.
pub struct LightClient<C, I> {
    /// The peer this client fetches from.
    pub peer: PeerId,
    /// Verification parameters.
    pub options: Options,
    pub clock: C,
    pub io: I,
}

impl<C: Clock, I: Io> LightClient<C, I> {
    /// A client for `peer` with the given options, clock and provider; the
    /// trust threshold must lie in `[1/3, 1]` (see `TrustThreshold::new`).
    pub fn new(peer: PeerId, options: Options, clock: C, io: I) -> (r: Self)
        requires
            options.trust_threshold.wf(),
        ensures
            r.peer == peer,
            r.options == options,
            r.clock == clock,
            r.io == io,
    {
        LightClient { peer, options, clock, io }
    }

    /// A client built from boxed components.
    pub fn from_boxed(peer: PeerId, options: Options, clock: Box<C>, io: Box<I>) -> (r: Self)
        requires
            options.trust_threshold.wf(),
        ensures
            r.peer == peer,
            r.options == options,
            r.clock == *clock,
            r.io == *io,
    {
        LightClient { peer, options, clock: *clock, io: *io }
    }

    /// The store's block at `height` if it is not `Failed` and came from this
    /// client's peer; else the peer's block at `height`, checked and stored as
    /// `Unverified` by `accept_fetched`.
    pub fn get_or_fetch_block(&mut self, height: Height, state: &mut State) -> (r: Result<
        (LightBlock, Status),
        Error,
    >)
        requires
            old(state).light_store.wf(),
        ensures
            final(state).light_store.wf(),
            final(self).peer == old(self).peer,
            final(self).options == old(self).options,
            final(self).clock == old(self).clock,
            same_trust(old(state).light_store@, final(state).light_store@),
            lifecycle_kept(old(state).light_store@, final(state).light_store@),
            usable(old(state).light_store@, height, old(self).peer) ==> {
                let m = old(state).light_store@;
                &&& *final(self) == *old(self)
                &&& final(state).light_store@ == m
                &&& r matches Ok((b, st)) && b.same_as(&m[height].0) && st == m[height].1
            },
            !usable(old(state).light_store@, height, old(self).peer) ==> {
                ||| (r matches Err(Error::Io(_)) && final(state).light_store@
                    == old(state).light_store@)
                ||| exists|b: LightBlock|
                    accept_outcome(
                        old(self).peer,
                        height,
                        b,
                        old(state).light_store@,
                        r,
                        final(state).light_store@,
                    )
            },
            r matches Ok(_) || r matches Err(Error::Io(_)) || r matches Err(Error::Store(_)),
            r matches Ok((b, st)) ==> {
                &&& b.height() == height
                &&& b.provider == old(self).peer
                &&& holds_non_failed(final(state).light_store@, height)
                &&& b.same_as(&final(state).light_store@[height].0)
                &&& st == final(state).light_store@[height].1
            },
    {
        match state.light_store.get_non_failed(height) {
            Some(found) => {
                if found.0.provider == self.peer {
                    return Ok(found);
                }
            },
            None => {},
        }
        let block = match self.io.fetch_light_block(AtHeight::At(height)) {
            Ok(b) => b,
            Err(e) => {
                return Err(Error::Io(e));
            },
        };
        let ghost fetched = block;
        let r = accept_fetched(self.peer, height, block, &mut state.light_store);
        proof {
            assert(accept_outcome(self.peer, height, fetched, old(state).light_store@, r, state.light_store@));
        }
        r
    }

    /// Verifies the peer's block at `target_height`, starting from the latest
    /// trusted block of the store, with `now` as the local time.
    pub fn verify_to_target_at(
        &mut self,
        target_height: Height,
        state: &mut State,
        now: Time,
    ) -> (r: Result<LightBlock, Error>)
        requires
            old(state).light_store.wf(),
        ensures
            final(state).light_store.wf(),
            final(self).peer == old(self).peer,
            final(self).options == old(self).options,
            final(self).clock == old(self).clock,
            lifecycle_kept(old(state).light_store@, final(state).light_store@),
            trust_kept(old(state).light_store@, final(state).light_store@),
            ({
                let m = old(state).light_store@;
                &&& (forall|h: Height| !#[trigger] trusted_at(m, h)) ==> {
                    &&& r == Err::<LightBlock, Error>(Error::NoInitialTrustedState)
                    &&& *final(self) == *old(self)
                    &&& final(state).light_store@ == m
                }
                &&& (exists|h: Height| #[trigger] trusted_at(m, h) && h > target_height) ==> {
                    &&& r == Err::<LightBlock, Error>(Error::TargetBelowTrusted)
                    &&& *final(self) == *old(self)
                    &&& final(state).light_store@ == m
                }
                &&& (trusted_at(m, target_height) && trusted_below(m, target_height)) ==> {
                    &&& r matches Ok(b) && b.same_as(&m[target_height].0)
                    &&& *final(self) == *old(self)
                    &&& final(state).light_store@ == m
                }
                &&& forall|t: LightBlock|
                    #[trigger] is_latest_trusted(m, t) && t.height() < target_height
                        && !within_trust_period(t.time(), old(self).options, now) ==> {
                        &&& r == Err::<LightBlock, Error>(Error::TrustedStateExpired)
                        &&& *final(self) == *old(self)
                        &&& final(state).light_store@ == m
                    }
            }),
            forall|t: LightBlock|
                #[trigger] is_latest_trusted(old(state).light_store@, t) && t.height()
                    < target_height && within_trust_period(t.time(), old(self).options, now)
                    && stored_candidate(old(state).light_store@, target_height, old(self).peer)
                    ==> stored_outcome(
                    old(state).light_store@,
                    final(state).light_store@,
                    target_height,
                    verdict(&t, &old(state).light_store@[target_height].0, old(self).options, now),
                    r,
                ),
            (r matches Ok(b) && !trusted_at(old(state).light_store@, target_height)) ==> r->Ok_0.provider
                == old(self).peer,
            r != Err::<LightBlock, Error>(Error::NoProgress),
            ({
                let m = old(state).light_store@;
                &&& r == Err::<LightBlock, Error>(Error::NoInitialTrustedState) ==> forall|h: Height|
                    !#[trigger] trusted_at(m, h)
                &&& r == Err::<LightBlock, Error>(Error::TargetBelowTrusted) ==> exists|h: Height|
                    #[trigger] trusted_at(m, h) && h > target_height
                &&& r == Err::<LightBlock, Error>(Error::TrustedStateExpired) ==> exists|
                    t: LightBlock,
                |
                    #[trigger] is_latest_trusted(m, t) && t.height() < target_height
                        && !within_trust_period(t.time(), old(self).options, now)
            }),
            r matches Err(Error::InvalidLightBlock(e)) ==> rejected_in(
                final(state).light_store@,
                old(self).options,
                now,
                e,
            ),
            r matches Ok(b) ==> {
                let m = final(state).light_store@;
                &&& b.height() == target_height
                &&& trusted_at(m, target_height)
                &&& b.same_as(&m[target_height].0)
                &&& trusted_below(m, target_height)
            },
    {
        let ghost m0 = state.light_store@;
        let mut trusted = match state.light_store.latest_trusted() {
            Some(t) => t,
            None => {
                return Err(Error::NoInitialTrustedState);
            },
        };
        proof {
            assert forall|t: LightBlock| #[trigger] is_latest_trusted(m0, t) implies t.height()
                == trusted.height() && t.time() == trusted.time() by {
                assert(trusted_at(m0, t.height()));
                assert(trusted_at(m0, trusted.height()));
            }
            assert(!(forall|h: Height| !#[trigger] trusted_at(m0, h))) by {
                assert(trusted_at(m0, trusted.height()));
            }
        }
        let ghost t0 = trusted;
        if trusted.height() == target_height {
            return Ok(trusted);
        }
        if trusted.height() > target_height {
            proof {
                assert(trusted_at(m0, trusted.height()));
            }
            return Err(Error::TargetBelowTrusted);
        }
        if (trusted.time() as u128) + (self.options.trusting_period as u128) <= (now as u128)
            + (self.options.clock_drift as u128) {
            proof {
                assert(is_latest_trusted(m0, trusted));
            }
            return Err(Error::TrustedStateExpired);
        }
        let mut current: Height = target_height;
        let mut chain: Vec<Height> = Vec::new();
        let ghost first = true;
        let ghost candidate = stored_candidate(m0, target_height, self.peer);
        loop
            invariant
                state.light_store.wf(),
                m0 == old(state).light_store@,
                is_latest_trusted(m0, t0),
                trusted_at(m0, t0.height()),
                t0.height() < target_height,
                within_trust_period(t0.time(), self.options, now),
                forall|t: LightBlock| #[trigger] is_latest_trusted(m0, t) ==> t.height()
                    == t0.height() && t.time() == t0.time(),
                self.peer == old(self).peer,
                self.options == old(self).options,
                self.clock == old(self).clock,
                trust_kept(m0, state.light_store@),
                lifecycle_kept(m0, state.light_store@),
                trusted_below(state.light_store@, target_height),
                trusted.height() < current <= target_height,
                forall|k: int| 0 <= k < chain@.len() ==> #[trigger] chain@[k] < target_height,
                candidate == stored_candidate(m0, target_height, old(self).peer),
                first ==> state.light_store@ == m0 && current == target_height && trusted == t0
                    && chain@.len() == 0,
                !first && candidate ==> verdict(
                    &t0,
                    &m0[target_height].0,
                    self.options,
                    now,
                ) == Verdict::NotEnoughTrust,
            decreases target_height - trusted.height(), current - trusted.height(),
        {
            let ghost before = state.light_store@;
            let block = match self.get_or_fetch_block(current, state) {
                Ok((b, _)) => b,
                Err(e) => {
                    proof {
                        lemma_trust_chain(m0, before, state.light_store@);
                lemma_lifecycle_trans(m0, before, state.light_store@);
                    }
                    return Err(e);
                },
            };
            proof {
                lemma_trust_chain(m0, before, state.light_store@);
                lemma_lifecycle_trans(m0, before, state.light_store@);
                assert(trusted_below(state.light_store@, target_height));
            }
            let verdict_now = verify(&trusted, &block, &self.options, now);
            proof {
                if first && candidate {
                    lemma_verdict_same(&trusted, &t0, &block, &m0[target_height].0, self.options, now);
                }
            }
            let step = next_step(trusted.height(), current, target_height, verdict_now);
            if let Step::Reject(reason) = step {
                let ghost mid = state.light_store@;
                match state.light_store.update(current, Status::Failed) {
                    Ok(()) => {},
                    Err(e) => {
                        return Err(Error::Store(e));
                    },
                }
                proof {
                    lemma_lifecycle_trans(m0, mid, state.light_store@);
                    assert(state.light_store@[current].1 == Status::Failed);
                    assert(verdict(&trusted, &state.light_store@[current].0, self.options, now)
                        == Verdict::Invalid(reason));
                    assert(state.light_store@.contains_key(current));
                    assert(trusted.height() < current);
                    assert(rejected_in(state.light_store@, self.options, now, reason));
                }
                return Err(Error::InvalidLightBlock(reason));
            }
            if let Step::Retry(next) = step {
                current = next;
                proof {
                    first = false;
                }
            } else if let Step::Stuck = step {
                return Err(Error::NoProgress);
            } else {
                {
                    let ghost mid = state.light_store@;
                    match state.light_store.update(current, Status::Verified) {
                        Ok(()) => {},
                        Err(e) => {
                            return Err(Error::Store(e));
                        },
                    }
                    proof {
                        lemma_lifecycle_trans(m0, mid, state.light_store@);
                        lemma_below_kept(mid, current, state.light_store@[current], target_height);
                    }
                    if let Step::Trust = step {
                        let mut k: usize = 0;
                        while k < chain.len()
                            invariant
                                state.light_store.wf(),
                                m0 == old(state).light_store@,
                                is_latest_trusted(m0, t0),
                                trusted_at(m0, t0.height()),
                                t0.height() < target_height,
                                within_trust_period(t0.time(), self.options, now),
                                forall|t: LightBlock| #[trigger] is_latest_trusted(m0, t) ==> t.height()
                                    == t0.height() && t.time() == t0.time(),
                                self.peer == old(self).peer,
                                self.options == old(self).options,
                                self.clock == old(self).clock,
                                trust_kept(m0, state.light_store@),
                lifecycle_kept(m0, state.light_store@),
                                trusted_below(state.light_store@, target_height),
                                forall|j: int|
                                    0 <= j < chain@.len() ==> #[trigger] chain@[j] < target_height,
                                block.height() == target_height,
                                first ==> chain@.len() == 0,
                                candidate == stored_candidate(m0, target_height, old(self).peer),
                                !first && candidate ==> verdict(
                                    &t0,
                                    &m0[target_height].0,
                                    self.options,
                                    now,
                                ) == Verdict::NotEnoughTrust,
                                first ==> state.light_store@[target_height].1 == Status::Verified,
                                state.light_store@.contains_key(target_height),
                                block.same_as(&state.light_store@[target_height].0),
                            decreases chain@.len() - k,
                        {
                            assert(chain@[k as int] < target_height);
                            let ghost mid = state.light_store@;
                            match state.light_store.update(chain[k], Status::Trusted) {
                                Ok(()) => {},
                                Err(e) => {
                                    return Err(Error::Store(e));
                                },
                            }
                            proof {
                                lemma_lifecycle_trans(m0, mid, state.light_store@);
                        lemma_below_kept(mid, chain@[k as int], state.light_store@[chain@[k as int]], target_height);
                            }
                            k = k + 1;
                        }
                        let ghost mid = state.light_store@;
                        match state.light_store.update(target_height, Status::Trusted) {
                            Ok(()) => {},
                            Err(e) => {
                                return Err(Error::Store(e));
                            },
                        }
                        proof {
                            lemma_lifecycle_trans(m0, mid, state.light_store@);
                        lemma_below_kept(mid, target_height, state.light_store@[target_height], target_height);
                        }
                        return Ok(block);
                    }
                    chain.push(current);
                    trusted = block;
                    current = target_height;
                    proof {
                        first = false;
                    }
                }
            }
        }
    }

    /// Verifies the peer's block at `target_height` against the clock's time.
    pub fn verify_to_target(&mut self, target_height: Height, state: &mut State) -> (r: Result<
        LightBlock,
        Error,
    >)
        requires
            old(state).light_store.wf(),
        ensures
            final(state).light_store.wf(),
            final(self).peer == old(self).peer,
            final(self).options == old(self).options,
            outcome(
                old(state).light_store@,
                final(state).light_store@,
                target_height,
                old(self).options,
                old(self).peer,
                r,
            ),
            is_early_error(r) ==> final(self).io == old(self).io,
            ({
                let m = old(state).light_store@;
                (trusted_at(m, target_height) && trusted_below(m, target_height))
                    ==> final(self).io == old(self).io
            }),
    {
        let now = self.clock.now();
        self.verify_to_target_at(target_height, state, now)
    }

    /// Verifies the highest block the peer offers.
    pub fn verify_to_highest(&mut self, state: &mut State) -> (r: Result<LightBlock, Error>)
        requires
            old(state).light_store.wf(),
        ensures
            final(state).light_store.wf(),
            final(self).peer == old(self).peer,
            final(self).options == old(self).options,
            (r matches Err(Error::Io(_)) && final(state).light_store@ == old(state).light_store@)
                || exists|tip: Height|
                outcome(
                    old(state).light_store@,
                    final(state).light_store@,
                    tip,
                    old(self).options,
                    old(self).peer,
                    r,
                ),
    {
        let tip = match self.io.fetch_light_block(AtHeight::Highest) {
            Ok(b) => b,
            Err(e) => {
                return Err(Error::Io(e));
            },
        };
        self.verify_to_target(tip.height(), state)
    }
}

} // verus!
