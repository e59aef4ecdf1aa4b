use vstd::prelude::*;

use crate::types::{Commit, Header};

verus! {

/// The transactions of a block, each as raw bytes.
#[derive(Debug)]
pub struct Data {
    pub txs: Vec<Vec<u8>>,
}

/// Evidence of malfeasance carried by a block, each item as raw bytes.
#[derive(Debug)]
pub struct EvidenceData {
    pub evidence: Vec<Vec<u8>>,
}

/// Why a block could not be built.
#[derive(Clone, Copy, Debug, PartialEq, Eq, Structural)]
pub enum BlockError {
    /// The last commit is absent above height 1, or present at height 1.
    InvalidBlock,
    MissingHeader,
    MissingData,
    MissingEvidence,
}

/// The all-zero commit, which stands for no commit at all.
pub open spec fn is_empty_commit(c: &Commit) -> bool {
    c.height == 0 && c.block_id == 0 && c.signatures@.len() == 0
}

/// Whether `c` is the all-zero commit.
pub fn empty_commit(c: &Commit) -> (r: bool)
    ensures
        r == is_empty_commit(c),
{
    c.height == 0 && c.block_id == 0 && c.signatures.len() == 0
}

/// A header, its transactions, evidence, and the commit of the previous block.
#[derive(Debug)]
pub struct Block {
    header: Header,
    data: Data,
    evidence: EvidenceData,
    last_commit: Option<Commit>,
}

/// A block at `height` carries a last commit exactly when it is above height 1.
pub open spec fn last_commit_fits(height: u64, has_last_commit: bool) -> bool {
    has_last_commit == (height != 1)
}

impl Block {
    /// The last commit is present exactly above height 1.
    pub open spec fn wf(&self) -> bool {
        last_commit_fits(self.header_spec().height, self.last_commit_spec() is Some)
    }

    pub closed spec fn header_spec(&self) -> Header {
        self.header
    }

    pub closed spec fn data_spec(&self) -> &Data {
        &self.data
    }

    pub closed spec fn evidence_spec(&self) -> &EvidenceData {
        &self.evidence
    }

    pub closed spec fn last_commit_spec(&self) -> &Option<Commit> {
        &self.last_commit
    }

    /// A block from its parts; the last commit must be present exactly above height 1.
    pub fn new(
        header: Header,
        data: Data,
        evidence: EvidenceData,
        last_commit: Option<Commit>,
    ) -> (r: Result<Block, BlockError>)
        ensures
            last_commit_fits(header.height, last_commit is Some) <==> r is Ok,
            r matches Err(e) ==> e == BlockError::InvalidBlock,
            r matches Ok(b) ==> {
                &&& b.wf()
                &&& b.header_spec() == header
                &&& *b.data_spec() == data
                &&& *b.evidence_spec() == evidence
                &&& *b.last_commit_spec() == last_commit
            },
    {
        if last_commit.is_none() && header.height != 1 {
            return Err(BlockError::InvalidBlock);
        }
        if last_commit.is_some() && header.height == 1 {
            return Err(BlockError::InvalidBlock);
        }
        Ok(Block { header, data, evidence, last_commit })
    }

    /// A block from parts that may be missing, as a decoder hands them over.
    /// An all-zero last commit counts as no last commit.
    pub fn from_parts(
        header: Option<Header>,
        data: Option<Data>,
        evidence: Option<EvidenceData>,
        last_commit: Option<Commit>,
    ) -> (r: Result<Block, BlockError>)
        ensures
            ({
                let has_commit = last_commit matches Some(c) && !is_empty_commit(&c);
                match header {
                    None => r == Err::<Block, BlockError>(BlockError::MissingHeader),
                    Some(h) => if !last_commit_fits(h.height, has_commit) {
                        r == Err::<Block, BlockError>(BlockError::InvalidBlock)
                    } else if data is None {
                        r == Err::<Block, BlockError>(BlockError::MissingData)
                    } else if evidence is None {
                        r == Err::<Block, BlockError>(BlockError::MissingEvidence)
                    } else {
                        r matches Ok(b) && b.wf() && b.header_spec() == h && *b.data_spec()
                            == data.unwrap() && *b.evidence_spec() == evidence.unwrap() && (
                        *b.last_commit_spec() is Some) == has_commit && (has_commit
                            ==> *b.last_commit_spec() == last_commit)
                    },
                }
            }),
    {
        let header = match header {
            Some(h) => h,
            None => {
                return Err(BlockError::MissingHeader);
            },
        };
        let last_commit = match last_commit {
            Some(c) => {
                if empty_commit(&c) {
                    None
                } else {
                    Some(c)
                }
            },
            None => None,
        };
        let has_commit = last_commit.is_some();
        if has_commit != (header.height != 1) {
            return Err(BlockError::InvalidBlock);
        }
        let data = match data {
            Some(d) => d,
            None => {
                return Err(BlockError::MissingData);
            },
        };
        let evidence = match evidence {
            Some(e) => e,
            None => {
                return Err(BlockError::MissingEvidence);
            },
        };
        Block::new(header, data, evidence, last_commit)
    }

    /// The block's header.
    pub fn header(&self) -> (r: &Header)
        ensures
            *r == self.header_spec(),
    {
        &self.header
    }

    /// The block's transactions.
    pub fn data(&self) -> (r: &Data)
        ensures
            r == self.data_spec(),
    {
        &self.data
    }

    /// The block's evidence.
    pub fn evidence(&self) -> (r: &EvidenceData)
        ensures
            r == self.evidence_spec(),
    {
        &self.evidence
    }

    /// The commit of the previous block, absent at height 1.
    pub fn last_commit(&self) -> (r: &Option<Commit>)
        ensures
            r == self.last_commit_spec(),
    {
        &self.last_commit
    }
}

} // verus!
