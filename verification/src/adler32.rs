//! The checksum engine and the batch coordinator.
//!
//! [`Adler32`] holds an eight-byte initial state and computes the checksum of
//! one byte sequence. [`Adler32Builder`] gathers byte sequences and computes
//! all their checksums at once, in parallel.

use crate::errors::RError;
use crate::model::{
    batch_entries, be_bytes, be_u32, checksum_bytes, entry_of, fold, initial_sums,
    is_batch_result, lemma_batch_has_no_failure, lemma_batch_result_len, lemma_fold_take, lemma_step_wrapping,
    successes, Batch, Entry, Sums, ADLER32_MOD,
};
use byteorder::{BigEndian, ReadBytesExt};
use rayon::iter::{IntoParallelRefIterator, ParallelIterator};
use vstd::prelude::*;

verus! {

/// The error of a failed read, as `std::io` reports it. Nothing is known of
/// what it holds.
#[verifier::external_type_specification]
#[verifier::external_body]
pub struct ExIoError(std::io::Error);

/// Calls `byteorder::ReadBytesExt::read_u32::<BigEndian>` on a byte slice.
///
/// Trusted, not proved: the call takes four bytes from the front of the slice
/// and returns the number that they spell, most significant byte first; on a
/// slice of fewer than four bytes it returns the reader's error.
#[verifier::external_body]
fn read_be_u32(bytes: &[u8]) -> (r: Result<u32, std::io::Error>)
    ensures
        bytes@.len() >= 4 ==> r is Ok && r->Ok_0 == be_u32(bytes@),
        bytes@.len() < 4 ==> r is Err,
{
    let mut reader = bytes;
    reader.read_u32::<BigEndian>()
}

/// The four bytes that spell `v`, most significant byte first.
fn encode_be(v: u32) -> (out: Vec<u8>)
    ensures
        out@ == be_bytes(v),
{
    let b0 = (v / 0x100_0000) as u8;
    let b1 = (v / 0x1_0000 % 0x100) as u8;
    let b2 = (v / 0x100 % 0x100) as u8;
    let b3 = (v % 0x100) as u8;
    let out = vec![b0, b1, b2, b3];
    assert(out@ =~= be_bytes(v));
    out
}

/// The checksum engine: an initial state, fixed at construction.
#[derive(Copy, Clone)]
pub struct Adler32 {
    initial_value: [u8; 8],
}

impl View for Adler32 {
    type V = Seq<u8>;

    /// The eight bytes of the initial state.
    closed spec fn view(&self) -> Seq<u8> {
        self.initial_value@
    }
}

impl Adler32 {
    /// An engine with the given initial state. Every eight bytes are
    /// accepted.
    pub fn new(initial_value: [u8; 8]) -> (engine: Self)
        ensures
            engine@ == initial_value@,
    {
        Adler32 { initial_value }
    }

    /// The initial state has eight bytes.
    pub proof fn lemma_view_len(self)
        ensures
            self@.len() == 8,
    {
    }

    /// The checksum of `hash` under this engine's initial state, as four
    /// bytes, most significant first. It succeeds on every input, and the
    /// engine is left as it was.
    pub fn adler32_checksum(self, hash: &[u8]) -> (r: Result<Vec<u8>, RError>)
        ensures
            r is Ok,
            r->Ok_0@ == checksum_bytes(self@, hash@),
    {
        let split = self.initial_value.as_slice().split_at(4);
        let left_init = read_be_u32(split.0).unwrap();
        let right_init = read_be_u32(split.1).unwrap();

        let ghost start = initial_sums(self@);
        let mut left: u32 = left_init;
        let mut right: u32 = right_init;
        let mut i: usize = 0;
        while i < hash.len()
            invariant
                i <= hash.len(),
                (Sums { left, right }) == fold(start, hash@.take(i as int)),
            decreases hash.len() - i,
        {
            let byte: u8 = hash[i];
            proof {
                lemma_fold_take(start, hash@, i as int);
                lemma_step_wrapping(Sums { left, right }, byte);
            }
            let bumped: u32 = left.wrapping_add(byte as u32);
            right = right.wrapping_add(bumped) % ADLER32_MOD;
            left = bumped % ADLER32_MOD;
            i += 1;
        }
        assert(hash@.take(hash.len() as int) =~= hash@);
        Ok(encode_be((right << 16) | left))
    }
}

/// What a checksum or its failure holds, as plain values.
pub open spec fn result_view(result: Result<Vec<u8>, RError>) -> Result<Seq<u8>, Seq<char>> {
    match result {
        Ok(bytes) => Ok(bytes@),
        Err(e) => Err(e@),
    }
}

/// One entry of a batch result: a byte sequence that was submitted, with its
/// checksum or its failure.
pub struct Adler32Result {
    hash: Vec<u8>,
    result: Result<Vec<u8>, RError>,
}

impl View for Adler32Result {
    type V = Entry;

    closed spec fn view(&self) -> Entry {
        Entry { hash: self.hash@, result: result_view(self.result) }
    }
}

impl DeepView for Adler32Result {
    type V = Entry;

    open spec fn deep_view(&self) -> Entry {
        self@
    }
}

impl Adler32Result {
    /// The entry of `hash` with the outcome `result`.
    pub fn new(hash: Vec<u8>, result: Result<Vec<u8>, RError>) -> (entry: Self)
        ensures
            entry@ == (Entry { hash: hash@, result: result_view(result) }),
    {
        Adler32Result { hash, result }
    }

    /// Whether the entry holds a checksum.
    pub fn is_ok(&self) -> (ok: bool)
        ensures
            ok == (self@.result is Ok),
    {
        self.result.is_ok()
    }

    /// The byte sequence that was submitted.
    pub fn get_hash(&self) -> (hash: &Vec<u8>)
        ensures
            hash@ == self@.hash,
    {
        &self.hash
    }

    /// The checksum, or the failure.
    pub fn get_result(&self) -> (result: &Result<Vec<u8>, RError>)
        ensures
            result_view(*result) == self@.result,
    {
        &self.result
    }
}

impl Adler32 {
    /// The entry of `hash` in a batch under this engine: a copy of `hash`,
    /// with its checksum.
    fn entry(self, hash: &Vec<u8>) -> (entry: Adler32Result)
        ensures
            entry@ == entry_of(self@, hash@),
    {
        Adler32Result::new(hash.clone(), self.adler32_checksum(hash.as_slice()))
    }
}

/// Runs rayon's `par_iter`, `map`, `filter` and `collect` over `values`,
/// with [`Adler32::entry`] as the map and [`Adler32Result::is_ok`] as the
/// filter.
///
/// Trusted, not proved: the map is applied to every element once, the filter
/// keeps the entries for which it returns `true`, and the collected vector
/// holds what was kept and nothing else. Nothing is claimed of the order in
/// which the entries stand.
#[verifier::external_body]
fn par_checksums(engine: Adler32, values: &Vec<Vec<u8>>) -> (out: Vec<Adler32Result>)
    ensures
        out.deep_view().to_multiset() == successes(
            batch_entries(Batch { init: engine@, pending: values.deep_view() }),
        ).to_multiset(),
{
    values.par_iter().map(|hash| engine.entry(hash)).filter(|entry| entry.is_ok()).collect()
}

/// The batch coordinator: one engine, and the byte sequences that await their
/// checksums.
pub struct Adler32Builder {
    values: Vec<Vec<u8>>,
    checksum: Adler32,
}

impl View for Adler32Builder {
    type V = Batch;

    closed spec fn view(&self) -> Batch {
        Batch { init: self.checksum@, pending: self.values.deep_view() }
    }
}

impl Adler32Builder {
    /// A coordinator for `checksum`, with nothing pending.
    pub fn new(checksum: Adler32) -> (builder: Self)
        ensures
            builder@ == (Batch { init: checksum@, pending: Seq::empty() }),
    {
        let builder = Adler32Builder { values: Vec::new(), checksum };
        assert(builder.values.deep_view() =~= Seq::<Seq<u8>>::empty());
        builder
    }

    /// Adds one byte sequence to the pending ones. Nothing is computed yet.
    pub fn push(&mut self, hash: Vec<u8>) -> (builder: &Self)
        ensures
            final(self)@ == (Batch { init: old(self)@.init, pending: old(self)@.pending.push(hash@) }),
            *builder == *final(self),
    {
        proof {
            assert(hash.deep_view() =~= hash@);
        }
        self.values.push(hash);
        assert(self.values.deep_view() =~= old(self).values.deep_view().push(hash@));
        self
    }

    /// Adds every byte sequence of `hash` to the pending ones, in the order
    /// in which they stand. Nothing is computed yet.
    pub fn push_vec(self, hash: Vec<Vec<u8>>) -> (builder: Self)
        ensures
            builder@ == (Batch { init: self@.init, pending: self@.pending + hash.deep_view() }),
    {
        let mut builder = self;
        let mut added = hash;
        builder.values.append(&mut added);
        assert(builder.values.deep_view() =~= self.values.deep_view() + hash.deep_view());
        builder
    }

    /// Computes the checksum of every pending sequence, all under the one
    /// initial state, and returns one entry for each. The entries come in no
    /// particular order. The coordinator is used up.
    pub fn finalize(self) -> (out: Vec<Adler32Result>)
        ensures
            is_batch_result(self@, out.deep_view()),
            out.len() == self@.pending.len(),
    {
        let out = par_checksums(self.checksum, &self.values);
        proof {
            lemma_batch_has_no_failure(self@);
            lemma_batch_result_len(self@, out.deep_view());
        }
        out
    }
}

} // verus!
