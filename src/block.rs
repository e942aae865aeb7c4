//! A single record of the ledger: its fields, its SHA-256 fingerprint, and
//! the proof-of-work search that makes the fingerprint begin with zeros.

use crate::text::{
    has_zero_prefix, hex_encode, hex_of, push_decimal, push_signed_decimal, signed_decimal,
    starts_with_zeros, decimal,
};
use sha2::Digest;
use vstd::prelude::*;
use vstd::utf8::encode_utf8;

verus! {

/// The SHA-256 digest of a byte sequence.
pub uninterp spec fn sha256_of(data: Seq<u8>) -> Seq<u8>;

/// Relies on `sha2::Sha256::digest`: the SHA-256 digest of the UTF-8 bytes
/// of `text`, which is 32 bytes long.
#[verifier::external_body]
fn sha256(text: &str) -> (r: Vec<u8>)
    ensures
        r@ == sha256_of(encode_utf8(text@)),
        r@.len() == 32,
{
    sha2::Sha256::digest(text.as_bytes()).to_vec()
}

/// Relies on `std::time::SystemTime::now` and `SystemTime::duration_since`:
/// the whole seconds elapsed since the Unix epoch, or `None` where the clock
/// reads a time before it. Nothing is promised of the value.
#[verifier::external_body]
fn clock_seconds() -> (r: Option<u64>) {
    std::time::SystemTime::now().duration_since(std::time::UNIX_EPOCH).ok().map(|d| d.as_secs())
}

/// The text that a record's fingerprint is the digest of: the index, the
/// timestamp, the payload, the predecessor's fingerprint and the search
/// counter, one after the other, numbers in decimal.
pub open spec fn record_text(
    id: u64,
    timestamp: i64,
    payload: Seq<char>,
    previous_hash: Seq<char>,
    nonce: u64,
) -> Seq<char> {
    decimal(id as nat) + signed_decimal(timestamp as int) + payload + previous_hash + decimal(
        nonce as nat,
    )
}

/// How a record could not be made from the clock's reading.
#[derive(Debug, Clone, Copy, PartialEq, Eq, Structural)]
pub enum BlockError {
    /// The clock reads a time before the Unix epoch.
    ClockBeforeEpoch,
    /// The clock reads a time too late to be held as a signed 64-bit count of
    /// seconds.
    ClockOutOfRange,
}

/// One record of the ledger.
#[derive(Debug, Clone)]
pub struct Block {
    /// Position in the chain, starting at 0.
    pub id: u64,
    /// Seconds since the Unix epoch when the record was made.
    pub timestamp: i64,
    /// Opaque content.
    pub payload: String,
    /// The fingerprint of the record before this one.
    pub previous_hash: String,
    /// The counter that the proof-of-work search moves.
    pub nonce: u64,
    /// The fingerprint of the record, as last computed.
    pub hash: String,
}

impl Block {
    /// The text hashed into this record's fingerprint, were its counter `nonce`.
    pub open spec fn text_at(&self, nonce: u64) -> Seq<char> {
        record_text(self.id, self.timestamp, self.payload@, self.previous_hash@, nonce)
    }

    /// The SHA-256 digest behind this record's fingerprint, were its counter
    /// `nonce`.
    pub open spec fn digest_at(&self, nonce: u64) -> Seq<u8> {
        sha256_of(encode_utf8(self.text_at(nonce)))
    }

    /// This record's fingerprint, were its counter `nonce`.
    pub open spec fn fingerprint_at(&self, nonce: u64) -> Seq<char> {
        hex_of(self.digest_at(nonce))
    }

    /// The fingerprint of the record's current fields.
    pub open spec fn fingerprint(&self) -> Seq<char> {
        self.fingerprint_at(self.nonce)
    }

    /// The stored fingerprint is the digest of the current fields.
    pub open spec fn is_sealed(&self) -> bool {
        self.hash@ == self.fingerprint()
    }

    /// The same record in all but its counter and stored fingerprint.
    pub open spec fn same_content(&self, other: &Block) -> bool {
        &&& self.id == other.id
        &&& self.timestamp == other.timestamp
        &&& self.payload@ == other.payload@
        &&& self.previous_hash@ == other.previous_hash@
    }

    /// Makes a record stamped with `timestamp`, its counter at 0 and its
    /// fingerprint computed.
    pub fn new_at(id: u64, timestamp: i64, payload: String, previous_hash: String) -> (r: Block)
        ensures
            r.id == id,
            r.timestamp == timestamp,
            r.payload@ == payload@,
            r.previous_hash@ == previous_hash@,
            r.nonce == 0,
            r.is_sealed(),
    {
        let mut block = Block { id, timestamp, payload, previous_hash, nonce: 0, hash: String::new() };
        block.hash = block.calculate_hash();
        block
    }

    /// Makes a record stamped with the current time, its counter at 0 and its
    /// fingerprint computed. Fails where the clock cannot give a timestamp.
    pub fn new(id: u64, payload: String, previous_hash: String) -> (r: Result<Block, BlockError>)
        ensures
            r matches Ok(b) ==> {
                &&& b.id == id
                &&& b.timestamp >= 0
                &&& b.payload@ == payload@
                &&& b.previous_hash@ == previous_hash@
                &&& b.nonce == 0
                &&& b.is_sealed()
            },
    {
        match timestamp_from_clock(clock_seconds()) {
            Ok(t) => Ok(Block::new_at(id, t, payload, previous_hash)),
            Err(e) => Err(e),
        }
    }

    /// The text that the fingerprint is the digest of.
    pub fn hash_input(&self) -> (r: String)
        ensures
            r@ == self.text_at(self.nonce),
    {
        let mut s = String::new();
        push_decimal(&mut s, self.id);
        push_signed_decimal(&mut s, self.timestamp);
        s.append(self.payload.as_str());
        s.append(self.previous_hash.as_str());
        push_decimal(&mut s, self.nonce);
        assert(s@ =~= self.text_at(self.nonce));
        s
    }

    /// The fingerprint of the record's current fields: SHA-256 of the
    /// record's text, in lowercase hexadecimal.
    pub fn calculate_hash(&self) -> (r: String)
        ensures
            r@ == self.fingerprint(),
            r@.len() == 64,
    {
        let text = self.hash_input();
        let digest = sha256(text.as_str());
        hex_encode(digest.as_slice())
    }

    /// Searches for a counter value, from the current one up, whose
    /// fingerprint begins with `difficulty` zero digits, and stores the
    /// fingerprint of the last value tried. Returns whether one was found;
    /// where none was up to the largest counter, the counter is left there.
    pub fn mine_block(&mut self, difficulty: usize) -> (found: bool)
        ensures
            final(self).same_content(old(self)),
            old(self).nonce <= final(self).nonce,
            final(self).is_sealed(),
            found == has_zero_prefix(final(self).hash@, difficulty as nat),
            !found ==> final(self).nonce == u64::MAX,
            forall|n: u64|
                old(self).nonce <= n < final(self).nonce ==> !has_zero_prefix(
                    #[trigger] final(self).fingerprint_at(n),
                    difficulty as nat,
                ),
    {
        self.hash = self.calculate_hash();
        loop
            invariant
                self.same_content(old(self)),
                old(self).nonce <= self.nonce,
                self.is_sealed(),
                forall|n: u64|
                    old(self).nonce <= n < self.nonce ==> !has_zero_prefix(
                        #[trigger] self.fingerprint_at(n),
                        difficulty as nat,
                    ),
            decreases u64::MAX - self.nonce,
        {
            if starts_with_zeros(self.hash.as_str(), difficulty) {
                return true;
            }
            if self.nonce == u64::MAX {
                return false;
            }
            let ghost before = *self;
            assert(!has_zero_prefix(before.fingerprint_at(before.nonce), difficulty as nat));
            self.nonce = self.nonce + 1;
            self.hash = self.calculate_hash();
            assert(forall|n: u64| #[trigger] self.fingerprint_at(n) == before.fingerprint_at(n));
        }
    }
}

/// The timestamp that a reading of the clock gives: its seconds, where there
/// are any and they fit in an `i64`.
pub fn timestamp_from_clock(reading: Option<u64>) -> (r: Result<i64, BlockError>)
    ensures
        r == match reading {
            None => Err(BlockError::ClockBeforeEpoch),
            Some(s) => if s <= i64::MAX {
                Ok(s as i64)
            } else {
                Err(BlockError::ClockOutOfRange)
            },
        },
{
    match reading {
        None => Err(BlockError::ClockBeforeEpoch),
        Some(s) => if s <= i64::MAX as u64 {
            Ok(s as i64)
        } else {
            Err(BlockError::ClockOutOfRange)
        },
    }
}

/// A fingerprint depends on the record's fields alone: two records with the
/// same fields have the same fingerprint.
pub proof fn lemma_fingerprint_deterministic(a: Block, b: Block)
    requires
        a.same_content(&b),
        a.nonce == b.nonce,
    ensures
        a.fingerprint() == b.fingerprint(),
{
    assert(a.text_at(a.nonce) == b.text_at(b.nonce));
}

} // verus!
