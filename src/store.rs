use vstd::prelude::*;

use crate::types::{allowed_transition, is_allowed_transition, Height, LightBlock, Status};

verus! {

/// Why the store refused a change.
#[derive(Clone, Copy, Debug, PartialEq, Eq, Structural)]
pub enum StoreError {
    /// A block with another header is already stored at that height.
    ConflictingBlock,
    /// No block is stored at that height.
    MissingBlock,
    /// The status change is not one the lifecycle allows.
    ForbiddenTransition,
}

/// The store's content at height `h` is `Trusted`.
pub open spec fn trusted_at(m: Map<Height, (LightBlock, Status)>, h: Height) -> bool {
    m.contains_key(h) && m[h].1 == Status::Trusted
}

/// Every trusted entry of `before` is still a trusted entry of `after`.
pub open spec fn trust_kept(
    before: Map<Height, (LightBlock, Status)>,
    after: Map<Height, (LightBlock, Status)>,
) -> bool {
    forall|h: Height| trusted_at(before, h) ==> #[trigger] trusted_at(after, h)
}

/// `b` is (a copy of) the block of greatest height among those with status `st`.
pub open spec fn is_highest(m: Map<Height, (LightBlock, Status)>, st: Status, b: LightBlock) -> bool {
    &&& m.contains_key(b.height())
    &&& m[b.height()].1 == st
    &&& b.same_as(&m[b.height()].0)
    &&& forall|h: Height| m.contains_key(h) && #[trigger] m[h].1 == st ==> h <= b.height()
}

/// The result of `highest(st)` on a store with content `m`.
pub open spec fn highest_result(m: Map<Height, (LightBlock, Status)>, st: Status, r: Option<LightBlock>) -> bool {
    match r {
        None => forall|h: Height| m.contains_key(h) ==> #[trigger] m[h].1 != st,
        Some(b) => is_highest(m, st, b),
    }
}

/// Every block of `before` is still in `after`, and its status moved only
/// along the lifecycle: in particular `Failed` stays `Failed`.
pub open spec fn lifecycle_kept(
    before: Map<Height, (LightBlock, Status)>,
    after: Map<Height, (LightBlock, Status)>,
) -> bool {
    forall|h: Height|
        #[trigger] before.contains_key(h) ==> after.contains_key(h) && allowed_transition(
            before[h].1,
            after[h].1,
        )
}

/// Lifecycle steps compose.
pub proof fn lemma_lifecycle_trans(
    m0: Map<Height, (LightBlock, Status)>,
    m1: Map<Height, (LightBlock, Status)>,
    m2: Map<Height, (LightBlock, Status)>,
)
    requires
        lifecycle_kept(m0, m1),
        lifecycle_kept(m1, m2),
    ensures
        lifecycle_kept(m0, m2),
{
    assert forall|h: Height| #[trigger] m0.contains_key(h) implies m2.contains_key(h)
        && allowed_transition(m0[h].1, m2[h].1) by {
        assert(m1.contains_key(h));
    }
}

/// Once a height is trusted in `m1` and every trusted entry is kept on the
/// way to `m2`, the latest trusted block of `m2` is at least that high.
pub proof fn lemma_monotonic_trust(
    m1: Map<Height, (LightBlock, Status)>,
    m2: Map<Height, (LightBlock, Status)>,
    h: Height,
    latest: Option<LightBlock>,
)
    requires
        trusted_at(m1, h),
        trust_kept(m1, m2),
        highest_result(m2, Status::Trusted, latest),
    ensures
        latest is Some,
        latest.unwrap().height() >= h,
{
    assert(trusted_at(m2, h));
}

/// Blocks by height, each with its verification status.
pub struct LightStore {
    blocks: Vec<LightBlock>,
    statuses: Vec<Status>,
}

impl LightStore {
    /// One status per block, and no two blocks at the same height.
    pub closed spec fn wf(&self) -> bool {
        &&& self.blocks@.len() == self.statuses@.len()
        &&& forall|i: int, j: int|
            0 <= i < j < self.blocks@.len() ==> #[trigger] self.blocks@[i].height()
                != #[trigger] self.blocks@[j].height()
    }

    pub closed spec fn holds(&self, h: Height) -> bool {
        exists|i: int| 0 <= i < self.blocks@.len() && #[trigger] self.blocks@[i].height() == h
    }

    pub closed spec fn index_of(&self, h: Height) -> int {
        choose|i: int| 0 <= i < self.blocks@.len() && #[trigger] self.blocks@[i].height() == h
    }

    /// Height to block and status.
    pub closed spec fn view(&self) -> Map<Height, (LightBlock, Status)> {
        Map::new(
            |h: Height| self.holds(h),
            |h: Height| (self.blocks@[self.index_of(h)], self.statuses@[self.index_of(h)]),
        )
    }

    proof fn lemma_index(&self, i: int)
        requires
            self.wf(),
            0 <= i < self.blocks@.len(),
        ensures
            self@.contains_key(self.blocks@[i].height()),
            self@[self.blocks@[i].height()] == (self.blocks@[i], self.statuses@[i]),
    {
        let h = self.blocks@[i].height();
        assert(self.holds(h));
        let j = self.index_of(h);
        assert(self.blocks@[j].height() == h);
        if i < j {
            assert(self.blocks@[i].height() != self.blocks@[j].height());
        } else if j < i {
            assert(self.blocks@[j].height() != self.blocks@[i].height());
        }
    }

    /// An empty store.
    pub fn new() -> (r: LightStore)
        ensures
            r.wf(),
            r@ == Map::<Height, (LightBlock, Status)>::empty(),
    {
        let r = LightStore { blocks: Vec::new(), statuses: Vec::new() };
        assert(r@ =~= Map::<Height, (LightBlock, Status)>::empty());
        r
    }

    /// Position of the block at height `h`, if any.
    fn find(&self, h: Height) -> (r: Option<usize>)
        requires
            self.wf(),
        ensures
            match r {
                None => !self@.contains_key(h),
                Some(i) => i < self.blocks@.len() && self.blocks@[i as int].height() == h
                    && self@.contains_key(h) && self@[h] == (
                    self.blocks@[i as int],
                    self.statuses@[i as int],
                ),
            },
    {
        let mut i: usize = 0;
        while i < self.blocks.len()
            invariant
                self.wf(),
                i <= self.blocks@.len(),
                forall|k: int| 0 <= k < i ==> #[trigger] self.blocks@[k].height() != h,
            decreases self.blocks@.len() - i,
        {
            if self.blocks[i].height() == h {
                proof {
                    self.lemma_index(i as int);
                }
                return Some(i);
            }
            i = i + 1;
        }
        None
    }

    /// The block at height `h` with its status, if any.
    pub fn get(&self, h: Height) -> (r: Option<(LightBlock, Status)>)
        requires
            self.wf(),
        ensures
            match r {
                None => !self@.contains_key(h),
                Some((b, st)) => self@.contains_key(h) && b.height() == h && b.same_as(&self@[h].0) && st
                    == self@[h].1,
            },
    {
        match self.find(h) {
            None => None,
            Some(i) => Some((self.blocks[i].copy(), self.statuses[i])),
        }
    }

    /// The block at height `h` with its status, unless it is absent or `Failed`.
    pub fn get_non_failed(&self, h: Height) -> (r: Option<(LightBlock, Status)>)
        requires
            self.wf(),
        ensures
            match r {
                None => !self@.contains_key(h) || self@[h].1 == Status::Failed,
                Some((b, st)) => self@.contains_key(h) && b.height() == h && b.same_as(&self@[h].0) && st
                    == self@[h].1 && st != Status::Failed,
            },
    {
        match self.find(h) {
            None => None,
            Some(i) => {
                if self.statuses[i] == Status::Failed {
                    None
                } else {
                    Some((self.blocks[i].copy(), self.statuses[i]))
                }
            },
        }
    }

    /// Stores `block` with `status` at its height. A block with another header
    /// at that height is a conflict; one with the same header is overwritten
    /// if the status change is allowed.
    pub fn insert(&mut self, block: LightBlock, status: Status) -> (r: Result<(), StoreError>)
        requires
            old(self).wf(),
        ensures
            final(self).wf(),
            trust_kept(old(self)@, final(self)@),
            lifecycle_kept(old(self)@, final(self)@),
            ({
                let h = block.height();
                let m = old(self)@;
                if !m.contains_key(h) {
                    r == Ok::<(), StoreError>(()) && final(self)@ == m.insert(h, (block, status))
                } else if m[h].0.signed_header.header != block.signed_header.header {
                    r == Err::<(), StoreError>(StoreError::ConflictingBlock) && final(self)@ == m
                } else if !allowed_transition(m[h].1, status) {
                    r == Err::<(), StoreError>(StoreError::ForbiddenTransition) && final(self)@
                        == m
                } else {
                    r == Ok::<(), StoreError>(()) && final(self)@ == m.insert(h, (block, status))
                }
            }),
    {
        let h = block.height();
        match self.find(h) {
            None => {
                let ghost before = *self;
                self.blocks.push(block);
                self.statuses.push(status);
                proof {
                    let n = before.blocks@.len() as int;
                    assert forall|h2: Height| #[trigger] self@.contains_key(h2) == before@.insert(
                        h,
                        (block, status),
                    ).contains_key(h2) by {
                        if h2 != h {
                            if self.holds(h2) {
                                let k = choose|k: int|
                                    0 <= k < self.blocks@.len() && #[trigger] self.blocks@[k].height()
                                        == h2;
                                assert(k < n);
                                assert(before.blocks@[k].height() == h2);
                            }
                            if before.holds(h2) {
                                let k = choose|k: int|
                                    0 <= k < before.blocks@.len()
                                        && #[trigger] before.blocks@[k].height() == h2;
                                assert(self.blocks@[k].height() == h2);
                            }
                        } else {
                            assert(self.blocks@[n].height() == h);
                        }
                    }
                    assert forall|h2: Height| #[trigger] self@.contains_key(h2) implies self@[h2]
                        == before@.insert(h, (block, status))[h2] by {
                        let k = choose|k: int|
                            0 <= k < self.blocks@.len() && #[trigger] self.blocks@[k].height()
                                == h2;
                        self.lemma_index(k);
                        if k < n {
                            assert(before.blocks@[k] == self.blocks@[k]);
                            before.lemma_index(k);
                        }
                    }
                    assert(self@ =~= before@.insert(h, (block, status)));
                }
                Ok(())
            },
            Some(i) => {
                if self.blocks[i].signed_header.header != block.signed_header.header {
                    return Err(StoreError::ConflictingBlock);
                }
                if !is_allowed_transition(self.statuses[i], status) {
                    return Err(StoreError::ForbiddenTransition);
                }
                let ghost before = *self;
                self.blocks.set(i, block);
                self.statuses.set(i, status);
                proof {
                    self.lemma_replaced(before, i as int, h);
                    assert(self@ =~= before@.insert(h, (block, status)));
                }
                Ok(())
            },
        }
    }

    proof fn lemma_replaced(&self, before: LightStore, i: int, h: Height)
        requires
            before.wf(),
            0 <= i < before.blocks@.len(),
            before.blocks@[i].height() == h,
            self.blocks@ == before.blocks@.update(i, self.blocks@[i]),
            self.statuses@ == before.statuses@.update(i, self.statuses@[i]),
            self.blocks@[i].height() == h,
        ensures
            self.wf(),
            forall|h2: Height| #[trigger] self@.contains_key(h2) == before@.contains_key(h2),
            forall|h2: Height|
                #[trigger] self@.contains_key(h2) && h2 != h ==> self@[h2] == before@[h2],
            self@.contains_key(h),
            self@[h] == (self.blocks@[i], self.statuses@[i]),
    {
        assert forall|a: int, b: int|
            0 <= a < b < self.blocks@.len() implies #[trigger] self.blocks@[a].height()
            != #[trigger] self.blocks@[b].height() by {
            assert(before.blocks@[a].height() != before.blocks@[b].height());
        }
        assert forall|h2: Height| #[trigger] self@.contains_key(h2) == before@.contains_key(h2) by {
            if self.holds(h2) {
                let k = choose|k: int|
                    0 <= k < self.blocks@.len() && #[trigger] self.blocks@[k].height() == h2;
                assert(before.blocks@[k].height() == h2);
            }
            if before.holds(h2) {
                let k = choose|k: int|
                    0 <= k < before.blocks@.len() && #[trigger] before.blocks@[k].height() == h2;
                assert(self.blocks@[k].height() == h2);
            }
        }
        assert forall|h2: Height| #[trigger]
            self@.contains_key(h2) && h2 != h implies self@[h2] == before@[h2] by {
            let k = choose|k: int|
                0 <= k < self.blocks@.len() && #[trigger] self.blocks@[k].height() == h2;
            self.lemma_index(k);
            before.lemma_index(k);
        }
        self.lemma_index(i);
    }

    /// Changes the status of the block at height `h`, if the change is allowed.
    pub fn update(&mut self, h: Height, status: Status) -> (r: Result<(), StoreError>)
        requires
            old(self).wf(),
        ensures
            final(self).wf(),
            trust_kept(old(self)@, final(self)@),
            lifecycle_kept(old(self)@, final(self)@),
            ({
                let m = old(self)@;
                if !m.contains_key(h) {
                    r == Err::<(), StoreError>(StoreError::MissingBlock) && final(self)@ == m
                } else if !allowed_transition(m[h].1, status) {
                    r == Err::<(), StoreError>(StoreError::ForbiddenTransition) && final(self)@
                        == m
                } else {
                    r == Ok::<(), StoreError>(()) && final(self)@ == m.insert(h, (m[h].0, status))
                }
            }),
    {
        match self.find(h) {
            None => Err(StoreError::MissingBlock),
            Some(i) => {
                if !is_allowed_transition(self.statuses[i], status) {
                    return Err(StoreError::ForbiddenTransition);
                }
                let ghost before = *self;
                self.statuses.set(i, status);
                proof {
                    assert(self.blocks@ =~= before.blocks@.update(i as int, self.blocks@[i as int]));
                    self.lemma_replaced(before, i as int, h);
                    assert(self@ =~= before@.insert(h, (before@[h].0, status)));
                }
                Ok(())
            },
        }
    }

    /// The block of greatest height among those with status `st`.
    pub fn highest(&self, st: Status) -> (r: Option<LightBlock>)
        requires
            self.wf(),
        ensures
            highest_result(self@, st, r),
    {
        let mut best: Option<usize> = None;
        let mut i: usize = 0;
        while i < self.blocks.len()
            invariant
                self.wf(),
                i <= self.blocks@.len(),
                match best {
                    None => forall|k: int| 0 <= k < i ==> #[trigger] self.statuses@[k] != st,
                    Some(b) => b < i && self.statuses@[b as int] == st && forall|k: int|
                        0 <= k < i && #[trigger] self.statuses@[k] == st
                            ==> self.blocks@[k].height() <= self.blocks@[b as int].height(),
                },
            decreases self.blocks@.len() - i,
        {
            if self.statuses[i] == st {
                match best {
                    None => {
                        best = Some(i);
                    },
                    Some(b) => {
                        if self.blocks[i].height() > self.blocks[b].height() {
                            best = Some(i);
                        }
                    },
                }
            }
            i = i + 1;
        }
        match best {
            None => {
                assert forall|h: Height| self@.contains_key(h) implies #[trigger] self@[h].1
                    != st by {
                    let k = choose|k: int|
                        0 <= k < self.blocks@.len() && #[trigger] self.blocks@[k].height() == h;
                    self.lemma_index(k);
                }
                None
            },
            Some(b) => {
                proof {
                    self.lemma_index(b as int);
                    assert forall|h: Height|
                        self@.contains_key(h) && #[trigger] self@[h].1 == st implies h
                        <= self.blocks@[b as int].height() by {
                        let k = choose|k: int|
                            0 <= k < self.blocks@.len() && #[trigger] self.blocks@[k].height()
                                == h;
                        self.lemma_index(k);
                    }
                }
                Some(self.blocks[b].copy())
            },
        }
    }

    /// The trusted block of greatest height.
    pub fn latest_trusted(&self) -> (r: Option<LightBlock>)
        requires
            self.wf(),
        ensures
            highest_result(self@, Status::Trusted, r),
    {
        self.highest(Status::Trusted)
    }
}

} // verus!
