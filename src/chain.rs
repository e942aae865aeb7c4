//! The ledger: an append-only sequence of records, each mined and linked to
//! the one before it, and the check of a whole sequence.

use crate::block::{Block, BlockError};
use crate::text::{has_zero_prefix, lemma_hex_of_injective, starts_with_zeros, zero_string, zeros};
use vstd::prelude::*;

verus! {

/// The number of leading zero digits that every appended record is mined to.
pub const DIFFICULTY: usize = 3;

/// The length of a fingerprint in hexadecimal digits.
pub const FINGERPRINT_LEN: usize = 64;

/// What the first record names as its predecessor: a fingerprint of zeros.
pub open spec fn sentinel() -> Seq<char> {
    zeros(FINGERPRINT_LEN as nat)
}

/// A record whose stored fingerprint is the digest of its fields and begins
/// with `d` zero digits.
pub open spec fn record_sound(b: Block, d: nat) -> bool {
    b.is_sealed() && has_zero_prefix(b.hash@, d)
}

/// `b` names `prev` as its predecessor and stands one position after it.
pub open spec fn linked(prev: Block, b: Block) -> bool {
    b.previous_hash@ == prev.hash@ && b.id as int == prev.id as int + 1
}

/// A sequence of records that is a valid ledger at difficulty `d`: it is not
/// empty, the first record names the sentinel as its predecessor, every
/// record is sound at `d`, and every record after the first is linked to the
/// one before it. The first record's own fingerprint is checked like every
/// other's.
pub open spec fn chain_valid(c: Seq<Block>, d: nat) -> bool {
    &&& c.len() > 0
    &&& c[0].previous_hash@ == sentinel()
    &&& forall|i: int| 0 <= i < c.len() ==> record_sound(#[trigger] c[i], d)
    &&& forall|i: int| 1 <= i < c.len() ==> linked(c[i - 1], #[trigger] c[i])
}

/// Why a record could not be added to a chain.
#[derive(Debug, Clone, Copy, PartialEq, Eq, Structural)]
pub enum ChainError {
    /// The clock could not give the new record a timestamp.
    Clock(BlockError),
    /// The chain holds no record to link the new one to.
    EmptyChain,
    /// The last record already stands at the largest index.
    IndexExhausted,
    /// No counter value gave a fingerprint with enough leading zeros.
    SearchExhausted,
}

/// An append-only ledger of records.
pub struct Blockchain {
    chain: Vec<Block>,
}

impl View for Blockchain {
    type V = Seq<Block>;

    closed spec fn view(&self) -> Seq<Block> {
        self.chain@
    }
}

impl Blockchain {
    /// Makes a chain holding its first record: index 0, the payload
    /// "First block", the sentinel as predecessor, mined at [`DIFFICULTY`].
    pub fn new() -> (r: Result<Blockchain, ChainError>)
        ensures
            r matches Ok(c) ==> {
                &&& c@.len() == 1
                &&& c@[0].id == 0
                &&& c@[0].payload@ == "First block"@
                &&& c@[0].previous_hash@ == sentinel()
                &&& chain_valid(c@, DIFFICULTY as nat)
            },
            r matches Err(e) ==> e is Clock || e == ChainError::SearchExhausted,
    {
        let payload = "First block".to_owned();
        let previous_hash = zero_string(FINGERPRINT_LEN);
        let mut first = match Block::new(0, payload, previous_hash) {
            Ok(b) => b,
            Err(e) => return Err(ChainError::Clock(e)),
        };
        if !first.mine_block(DIFFICULTY) {
            return Err(ChainError::SearchExhausted);
        }
        let mut chain = Vec::new();
        chain.push(first);
        Ok(Blockchain { chain })
    }

    /// Adds a record holding `payload` after the last one, linked to it and
    /// mined at [`DIFFICULTY`]. On an error the chain is left as it was.
    pub fn add_block(&mut self, payload: String) -> (r: Result<(), ChainError>)
        ensures
            r is Ok ==> {
                let prev = old(self)@.last();
                let b = final(self)@.last();
                &&& old(self)@.len() > 0
                &&& final(self)@ == old(self)@.push(b)
                &&& b.id == prev.id + 1
                &&& b.previous_hash@ == prev.hash@
                &&& b.payload@ == payload@
                &&& b.timestamp >= 0
                &&& record_sound(b, DIFFICULTY as nat)
                &&& linked(prev, b)
                &&& (chain_valid(old(self)@, DIFFICULTY as nat) ==> chain_valid(
                    final(self)@,
                    DIFFICULTY as nat,
                ))
            },
            r is Err ==> final(self)@ == old(self)@,
            r == Err::<(), ChainError>(ChainError::EmptyChain) <==> old(self)@.len() == 0,
            r == Err::<(), ChainError>(ChainError::IndexExhausted) <==> (old(self)@.len() > 0
                && old(self)@.last().id == u64::MAX),
    {
        let n = self.chain.len();
        if n == 0 {
            return Err(ChainError::EmptyChain);
        }
        let last = &self.chain[n - 1];
        if last.id == u64::MAX {
            return Err(ChainError::IndexExhausted);
        }
        let id = last.id + 1;
        let previous_hash = last.hash.clone();
        let mut block = match Block::new(id, payload, previous_hash) {
            Ok(b) => b,
            Err(e) => return Err(ChainError::Clock(e)),
        };
        if !block.mine_block(DIFFICULTY) {
            return Err(ChainError::SearchExhausted);
        }
        let ghost before = self@;
        self.chain.push(block);
        proof {
            if chain_valid(before, DIFFICULTY as nat) {
                lemma_append_keeps_valid(before, block, DIFFICULTY as nat);
            }
        }
        Ok(())
    }

    /// Whether the chain is a valid ledger at `difficulty`: see
    /// [`chain_valid`].
    pub fn is_chain_valid(&self, difficulty: usize) -> (r: bool)
        ensures
            r == chain_valid(self@, difficulty as nat),
    {
        let n = self.chain.len();
        if n == 0 {
            return false;
        }
        let genesis_link = zero_string(FINGERPRINT_LEN);
        if self.chain[0].previous_hash != genesis_link {
            return false;
        }
        let mut i: usize = 0;
        while i < n
            invariant
                n == self@.len(),
                self@[0].previous_hash@ == sentinel(),
                i <= n,
                forall|k: int| 0 <= k < i ==> record_sound(#[trigger] self@[k], difficulty as nat),
                forall|k: int| 1 <= k < i ==> linked(self@[k - 1], #[trigger] self@[k]),
            decreases n - i,
        {
            let block = &self.chain[i];
            let check_hash = block.calculate_hash();
            if check_hash != block.hash {
                return false;
            }
            if i > 0 {
                let previous = &self.chain[i - 1];
                if block.previous_hash != previous.hash {
                    return false;
                }
                if previous.id == u64::MAX || block.id != previous.id + 1 {
                    return false;
                }
            }
            if !starts_with_zeros(block.hash.as_str(), difficulty) {
                return false;
            }
            i = i + 1;
        }
        true
    }

    /// The records, first to last.
    pub fn get_chain(&self) -> (r: &[Block])
        ensures
            r@ == self@,
    {
        self.chain.as_slice()
    }

    /// Overwrites the record at `index` with `record`, where there is one.
    /// Nothing of the chain's validity is kept: this is how records that were
    /// changed elsewhere are put back for checking.
    pub fn replace_record(&mut self, index: usize, record: Block) -> (r: bool)
        ensures
            r == (index < old(self)@.len()),
            r ==> final(self)@ == old(self)@.update(index as int, record),
            !r ==> final(self)@ == old(self)@,
    {
        if index < self.chain.len() {
            self.chain.set(index, record);
            true
        } else {
            false
        }
    }
}

/// Appending a record that is sound at `d` and linked to the last record of
/// a chain that is valid at `d` gives a chain that is valid at `d`.
pub proof fn lemma_append_keeps_valid(c: Seq<Block>, b: Block, d: nat)
    requires
        chain_valid(c, d),
        record_sound(b, d),
        linked(c.last(), b),
    ensures
        chain_valid(c.push(b), d),
{
    let c2 = c.push(b);
    assert forall|i: int| 0 <= i < c2.len() implies record_sound(#[trigger] c2[i], d) by {
        if i < c.len() {
            assert(c2[i] == c[i]);
        }
    }
    assert forall|i: int| 1 <= i < c2.len() implies linked(c2[i - 1], #[trigger] c2[i]) by {
        if i < c.len() {
            assert(c2[i] == c[i]);
            assert(c2[i - 1] == c[i - 1]);
        }
    }
}

/// Changing the payload of any record of a valid chain, and nothing else,
/// makes the chain invalid, wherever the new content's SHA-256 digest differs
/// from the old one's.
pub proof fn lemma_payload_tamper_detected(c: Seq<Block>, d: nat, i: int, t: Block)
    requires
        chain_valid(c, d),
        0 <= i < c.len(),
        t.id == c[i].id,
        t.timestamp == c[i].timestamp,
        t.previous_hash@ == c[i].previous_hash@,
        t.nonce == c[i].nonce,
        t.hash@ == c[i].hash@,
        t.payload@ != c[i].payload@,
        t.digest_at(t.nonce) != c[i].digest_at(c[i].nonce),
    ensures
        !chain_valid(c.update(i, t), d),
{
    let c2 = c.update(i, t);
    if chain_valid(c2, d) {
        assert(record_sound(c2[i], d));
        assert(record_sound(c[i], d));
        lemma_hex_of_injective(t.digest_at(t.nonce), c[i].digest_at(c[i].nonce));
    }
}

/// Overwriting the predecessor fingerprint of any record after the first in
/// a valid chain with another value makes the chain invalid.
pub proof fn lemma_link_break_detected(c: Seq<Block>, d: nat, i: int, t: Block)
    requires
        chain_valid(c, d),
        1 <= i < c.len(),
        t.id == c[i].id,
        t.timestamp == c[i].timestamp,
        t.payload@ == c[i].payload@,
        t.nonce == c[i].nonce,
        t.hash@ == c[i].hash@,
        t.previous_hash@ != c[i].previous_hash@,
    ensures
        !chain_valid(c.update(i, t), d),
{
    let c2 = c.update(i, t);
    if chain_valid(c2, d) {
        assert(linked(c2[i - 1], c2[i]));
        assert(linked(c[i - 1], c[i]));
        assert(c2[i - 1] == c[i - 1]);
    }
}

/// A chain valid at difficulty `d` is valid at every lower difficulty.
pub proof fn lemma_valid_at_lower_difficulty(c: Seq<Block>, d: nat, e: nat)
    requires
        chain_valid(c, d),
        e <= d,
    ensures
        chain_valid(c, e),
{
    assert forall|i: int| 0 <= i < c.len() implies record_sound(#[trigger] c[i], e) by {
        assert(record_sound(c[i], d));
    }
}

/// A chain holding a record whose fingerprint begins with fewer than `e`
/// zero digits is invalid at difficulty `e`.
pub proof fn lemma_invalid_above_mined_difficulty(c: Seq<Block>, e: nat, k: int)
    requires
        0 <= k < c.len(),
        !has_zero_prefix(c[k].hash@, e),
    ensures
        !chain_valid(c, e),
{
    if chain_valid(c, e) {
        assert(record_sound(c[k], e));
    }
}

} // verus!
