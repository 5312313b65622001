//! The mathematics of the checksum: how eight bytes seed two running sums,
//! how one byte advances them, and how the sums become four bytes.
//!
//! Everything here is specification and proof. The executable code in
//! [`crate::adler32`] is verified against these definitions.

use vstd::arithmetic::div_mod::lemma_add_mod_noop_right;
use vstd::prelude::*;
use vstd::seq_lib::to_multiset_len;
use vstd::wrapping::u32_specs;

verus! {

/// The modulus of both running sums: 65521, the largest prime below 2^16.
pub const ADLER32_MOD: u32 = 0xFFF1;

/// The two running sums of the checksum.
pub struct Sums {
    pub left: u32,
    pub right: u32,
}

/// The number that the first four bytes of `b` spell, most significant
/// byte first.
pub open spec fn be_u32(b: Seq<u8>) -> int
    recommends
        b.len() >= 4,
{
    b[0] * 0x100_0000 + b[1] * 0x1_0000 + b[2] * 0x100 + b[3]
}

/// The four bytes that spell `v`, most significant byte first.
pub open spec fn be_bytes(v: u32) -> Seq<u8> {
    seq![
        (v / 0x100_0000) as u8,
        (v / 0x1_0000 % 0x100) as u8,
        (v / 0x100 % 0x100) as u8,
        (v % 0x100) as u8,
    ]
}

/// What 32-bit addition keeps of a sum that may have left the 32 bits.
pub open spec fn wrap32(x: int) -> int {
    x % 0x1_0000_0000
}

/// The sums that an eight-byte initial state stands for: the left sum from
/// its first four bytes, the right sum from its last four.
pub open spec fn initial_sums(init: Seq<u8>) -> Sums
    recommends
        init.len() == 8,
{
    Sums {
        left: be_u32(init.subrange(0, 4)) as u32,
        right: be_u32(init.subrange(4, 8)) as u32,
    }
}

/// The sums after one more byte. The right sum takes the left sum as it was
/// before this byte, plus the byte.
pub open spec fn step(s: Sums, b: u8) -> Sums {
    Sums {
        left: (wrap32(s.left + b) % (ADLER32_MOD as int)) as u32,
        right: (wrap32(s.right + s.left + b) % (ADLER32_MOD as int)) as u32,
    }
}

/// The sums after all of `data`, taken front to back, starting from `s`.
pub open spec fn fold(s: Sums, data: Seq<u8>) -> Sums
    decreases data.len(),
{
    if data.len() == 0 {
        s
    } else {
        step(fold(s, data.drop_last()), data.last())
    }
}

/// The 32-bit value of a pair of sums: the right sum in the high half, the
/// left sum in the low half.
pub open spec fn combine(s: Sums) -> u32 {
    (s.right << 16) | s.left
}

/// The checksum of `data` under the initial state `init`, as a number.
pub open spec fn checksum_value(init: Seq<u8>, data: Seq<u8>) -> u32 {
    combine(fold(initial_sums(init), data))
}

/// The checksum of `data` under the initial state `init`, as the four bytes
/// that are handed out.
pub open spec fn checksum_bytes(init: Seq<u8>, data: Seq<u8>) -> Seq<u8> {
    be_bytes(checksum_value(init, data))
}

/// Both sums are reduced: each lies in `0..=65520`.
pub open spec fn reduced(s: Sums) -> bool {
    s.left < ADLER32_MOD && s.right < ADLER32_MOD
}

/// Spelling a number as four bytes and reading them back gives the number.
pub proof fn lemma_be_round_trip(v: u32)
    ensures
        be_bytes(v).len() == 4,
        be_u32(be_bytes(v)) == v,
{
    assert(v == (v / 0x100_0000) * 0x100_0000 + (v / 0x1_0000 % 0x100) * 0x1_0000 + (v / 0x100
        % 0x100) * 0x100 + v % 0x100) by (bit_vector);
    assert(v / 0x100_0000 < 0x100) by (bit_vector);
}

/// One byte more leaves both sums reduced, whatever they were before.
pub proof fn lemma_step_reduced(s: Sums, b: u8)
    ensures
        reduced(step(s, b)),
{
}

/// One step, as 32-bit arithmetic computes it: the byte is added to the left
/// sum with wraparound, that sum is added to the right sum with wraparound,
/// and each is then reduced.
pub proof fn lemma_step_wrapping(s: Sums, b: u8)
    ensures
        step(s, b).left == u32_specs::wrapping_add(s.left, b as u32) % ADLER32_MOD,
        step(s, b).right == u32_specs::wrapping_add(
            s.right,
            u32_specs::wrapping_add(s.left, b as u32),
        ) % ADLER32_MOD,
{
    let bumped = u32_specs::wrapping_add(s.left, b as u32);
    assert(bumped == wrap32(s.left + b));
    let total = u32_specs::wrapping_add(s.right, bumped);
    assert(total == wrap32(s.right + s.left + b));
}

/// Folding a prefix that is one byte longer is one step from the fold of the
/// shorter prefix.
pub proof fn lemma_fold_take(s: Sums, data: Seq<u8>, k: int)
    requires
        0 <= k < data.len(),
    ensures
        fold(s, data.take(k + 1)) == step(fold(s, data.take(k)), data[k]),
{
    assert(data.take(k + 1).drop_last() =~= data.take(k));
}

/// The sums are reduced as soon as one byte has been folded in.
pub proof fn lemma_fold_reduced(s: Sums, data: Seq<u8>)
    requires
        data.len() > 0,
    ensures
        reduced(fold(s, data)),
{
    lemma_step_reduced(fold(s, data.drop_last()), data.last());
}

/// The running sums stay in `0..=65520` at every step: after each byte of
/// `data`, whatever the initial sums were.
pub proof fn lemma_running_sums_reduced(s: Sums, data: Seq<u8>)
    ensures
        forall|k: int| 1 <= k <= data.len() ==> reduced(#[trigger] fold(s, data.take(k))),
{
    assert forall|k: int| 1 <= k <= data.len() implies reduced(#[trigger] fold(s, data.take(k))) by {
        lemma_fold_reduced(s, data.take(k));
    }
}

/// Sums that start reduced are reduced throughout, before the first byte too.
pub proof fn lemma_reduced_throughout(s: Sums, data: Seq<u8>)
    requires
        reduced(s),
    ensures
        forall|k: int| 0 <= k <= data.len() ==> reduced(#[trigger] fold(s, data.take(k))),
{
    assert forall|k: int| 0 <= k <= data.len() implies reduced(#[trigger] fold(s, data.take(k))) by {
        if k > 0 {
            lemma_fold_reduced(s, data.take(k));
        }
    }
}

/// The sums as they would be if nothing were ever reduced: each byte is added
/// to the left sum, and the left sum, with the byte in it, to the right sum.
pub open spec fn unreduced(left: int, right: int, data: Seq<u8>) -> (int, int)
    decreases data.len(),
{
    if data.len() == 0 {
        (left, right)
    } else {
        let before = unreduced(left, right, data.drop_last());
        (before.0 + data.last(), before.1 + before.0 + data.last())
    }
}

/// A step that stays inside the 32 bits is plain addition, then reduction.
pub proof fn lemma_step_without_wrap(s: Sums, b: u8)
    requires
        s.right + s.left + b <= u32::MAX,
    ensures
        step(s, b).left == (s.left + b) % 65521,
        step(s, b).right == (s.right + s.left + b) % 65521,
{
    assert(wrap32(s.left + b) == s.left + b);
    assert(wrap32(s.right + s.left + b) == s.right + s.left + b);
}

/// Adding to a remainder and reducing again is adding and reducing once.
proof fn lemma_add_to_remainder(x: int, b: int)
    ensures
        (x % 65521 + b) % 65521 == (x + b) % 65521,
{
    lemma_add_mod_noop_right(b, x, 65521);
}

/// The running sums are the unreduced sums modulo 65521, provided that the
/// first step stays inside the 32 bits. Reduced initial sums always do.
pub proof fn lemma_fold_matches_unreduced(s: Sums, data: Seq<u8>)
    requires
        data.len() > 0,
        s.right + s.left + data[0] <= u32::MAX,
    ensures
        fold(s, data).left == unreduced(s.left as int, s.right as int, data).0 % 65521,
        fold(s, data).right == unreduced(s.left as int, s.right as int, data).1 % 65521,
    decreases data.len(),
{
    let shorter = data.drop_last();
    let b = data.last();
    let before = fold(s, shorter);
    let plain = unreduced(s.left as int, s.right as int, shorter);
    if shorter.len() == 0 {
        assert(before == s);
        assert(plain == (s.left as int, s.right as int));
        lemma_step_without_wrap(s, b);
    } else {
        lemma_fold_matches_unreduced(s, shorter);
        lemma_fold_reduced(s, shorter);
        lemma_step_without_wrap(before, b);
        lemma_add_to_remainder(plain.0, b as int);
        lemma_add_to_remainder(plain.1, before.left + b);
        lemma_add_to_remainder(plain.0, plain.1 + b);
    }
}

/// The checksum of nothing is the initial state itself: the right sum in the
/// high half, the left sum in the low half, neither of them reduced.
pub proof fn lemma_checksum_of_empty(init: Seq<u8>)
    ensures
        fold(initial_sums(init), Seq::empty()) == initial_sums(init),
        checksum_value(init, Seq::empty()) == (initial_sums(init).right << 16) | initial_sums(
            init,
        ).left,
{
}

/// The value of reduced sums holds the right sum in its high 16 bits and the
/// left sum in its low 16 bits.
pub proof fn lemma_combine_reduced(s: Sums)
    requires
        reduced(s),
    ensures
        combine(s) == s.right * 0x1_0000 + s.left,
        combine(s) / 0x1_0000 == s.right,
        combine(s) % 0x1_0000 == s.left,
{
    let l = s.left;
    let r = s.right;
    assert((r << 16) | l == r * 0x1_0000 + l) by (bit_vector)
        requires
            l < 0x1_0000,
            r < 0x1_0000,
    ;
}

/// Under the seed of the textbook, left sum 1 and right sum 0, the checksum
/// is the Adler-32 of the textbook: the unreduced right sum modulo 65521 in
/// the high half, the unreduced left sum modulo 65521 in the low half.
pub proof fn lemma_standard_seed(data: Seq<u8>)
    ensures
        initial_sums(seq![0u8, 0u8, 0u8, 1u8, 0u8, 0u8, 0u8, 0u8]) == (Sums { left: 1, right: 0 }),
        checksum_value(seq![0u8, 0u8, 0u8, 1u8, 0u8, 0u8, 0u8, 0u8], data) == (unreduced(
            1,
            0,
            data,
        ).1 % 65521) * 0x1_0000 + unreduced(1, 0, data).0 % 65521,
{
    let init = seq![0u8, 0u8, 0u8, 1u8, 0u8, 0u8, 0u8, 0u8];
    let start = Sums { left: 1, right: 0 };
    assert(init.subrange(0, 4) =~= seq![0u8, 0u8, 0u8, 1u8]);
    assert(init.subrange(4, 8) =~= seq![0u8, 0u8, 0u8, 0u8]);
    assert(initial_sums(init) == start);
    if data.len() > 0 {
        lemma_fold_matches_unreduced(start, data);
        lemma_fold_reduced(start, data);
    }
    lemma_combine_reduced(fold(start, data));
}

/// The checksum is a function of the initial state and the data: what two
/// computations on the same two hand out is the same.
pub proof fn lemma_checksum_deterministic(
    init: Seq<u8>,
    data: Seq<u8>,
    first: Seq<u8>,
    second: Seq<u8>,
)
    requires
        first == checksum_bytes(init, data),
        second == checksum_bytes(init, data),
    ensures
        first == second,
{
}

/// One result of a batch, as plain values: the byte sequence that was
/// submitted, and its checksum or the message of its failure.
pub struct Entry {
    pub hash: Seq<u8>,
    pub result: Result<Seq<u8>, Seq<char>>,
}

/// A batch job, as plain values: the shared initial state and the byte
/// sequences that await their checksums, in the order of submission.
pub struct Batch {
    pub init: Seq<u8>,
    pub pending: Seq<Seq<u8>>,
}

/// The entry that `data` gets under the initial state `init`: `data` itself,
/// with its checksum.
pub open spec fn entry_of(init: Seq<u8>, data: Seq<u8>) -> Entry {
    Entry { hash: data, result: Ok(checksum_bytes(init, data)) }
}

/// One entry for each pending sequence, in the order of submission.
pub open spec fn batch_entries(job: Batch) -> Seq<Entry> {
    job.pending.map_values(|data: Seq<u8>| entry_of(job.init, data))
}

/// The entries that hold a checksum, in the order in which they stand.
pub open spec fn successes(entries: Seq<Entry>) -> Seq<Entry> {
    entries.filter(|e: Entry| e.result is Ok)
}

/// `out` is a result of the batch `job`: it holds the entry of every pending
/// sequence, as often as the sequence was submitted, and nothing else. The
/// order of `out` is left open.
pub open spec fn is_batch_result(job: Batch, out: Seq<Entry>) -> bool {
    out.to_multiset() == batch_entries(job).to_multiset()
}

/// A filter that every element passes keeps the sequence as it is.
pub proof fn lemma_filter_keeps_all<A>(s: Seq<A>, pred: spec_fn(A) -> bool)
    requires
        forall|i: int| 0 <= i < s.len() ==> pred(#[trigger] s[i]),
    ensures
        s.filter(pred) == s,
    decreases s.len(),
{
    reveal(Seq::filter);
    if s.len() > 0 {
        lemma_filter_keeps_all(s.drop_last(), pred);
        assert(s.drop_last().push(s.last()) =~= s);
    }
}

/// No entry of a batch is a failure, so keeping the successes drops nothing.
pub proof fn lemma_batch_has_no_failure(job: Batch)
    ensures
        successes(batch_entries(job)) == batch_entries(job),
{
    lemma_filter_keeps_all(batch_entries(job), |e: Entry| e.result is Ok);
}

/// Mapping two sequences that hold the same elements, each as often in one
/// as in the other, gives two sequences of which the same is true.
pub proof fn lemma_map_values_same_elements<A, B>(a: Seq<A>, b: Seq<A>, f: spec_fn(A) -> B)
    requires
        a.to_multiset() == b.to_multiset(),
    ensures
        a.map_values(f).to_multiset() == b.map_values(f).to_multiset(),
    decreases a.len(),
{
    broadcast use vstd::seq_lib::group_to_multiset_ensures;

    to_multiset_len(a);
    to_multiset_len(b);
    if a.len() == 0 {
        assert(a.map_values(f) =~= b.map_values(f));
    } else {
        let x = a.last();
        assert(a.drop_last().push(x) =~= a);
        assert(a.to_multiset().count(x) > 0);
        assert(b.contains(x));
        let j = choose|j: int| 0 <= j < b.len() && b[j] == x;
        let a_rest = a.drop_last();
        let b_rest = b.remove(j);
        assert(a_rest.to_multiset() =~= a.to_multiset().remove(x)) by {
            assert(a_rest =~= a.remove(a.len() - 1));
        }
        assert(b_rest.to_multiset() =~= b.to_multiset().remove(x));
        lemma_map_values_same_elements(a_rest, b_rest, f);
        assert(a.map_values(f) =~= a_rest.map_values(f).push(f(x)));
        assert(b.map_values(f).remove(j) =~= b_rest.map_values(f));
        assert(b.map_values(f)[j] == f(x));
        assert(b.map_values(f).to_multiset() =~= b_rest.map_values(f).to_multiset().insert(f(x)));
    }
}

/// A batch drops nothing: every result of it has as many entries as
/// sequences were submitted.
pub proof fn lemma_batch_result_len(job: Batch, out: Seq<Entry>)
    requires
        is_batch_result(job, out),
    ensures
        out.len() == job.pending.len(),
{
    to_multiset_len(out);
    to_multiset_len(batch_entries(job));
}

/// A batch of one sequence gives what the single computation gives: one
/// entry, which holds that sequence and its checksum.
pub proof fn lemma_batch_of_one(init: Seq<u8>, data: Seq<u8>, out: Seq<Entry>)
    requires
        is_batch_result(Batch { init, pending: seq![data] }, out),
    ensures
        out.len() == 1,
        out[0].hash == data,
        out[0].result == Ok::<Seq<u8>, Seq<char>>(checksum_bytes(init, data)),
{
    broadcast use vstd::seq_lib::group_to_multiset_ensures;

    let job = Batch { init, pending: seq![data] };
    let entries = batch_entries(job);
    assert(entries =~= seq![entry_of(init, data)]);
    lemma_batch_result_len(job, out);
    assert(out.contains(out[0]));
    assert(out.to_multiset().count(out[0]) > 0);
    assert(entries.contains(out[0]));
}

/// The order of submission does not matter: two batches under one initial
/// state, with the same sequences submitted equally often, have the same
/// results, up to the order of the entries.
pub proof fn lemma_batch_order_independent(
    init: Seq<u8>,
    first: Seq<Seq<u8>>,
    second: Seq<Seq<u8>>,
    out_first: Seq<Entry>,
    out_second: Seq<Entry>,
)
    requires
        first.to_multiset() == second.to_multiset(),
        is_batch_result(Batch { init, pending: first }, out_first),
        is_batch_result(Batch { init, pending: second }, out_second),
    ensures
        out_first.to_multiset() == out_second.to_multiset(),
{
    lemma_map_values_same_elements(first, second, |data: Seq<u8>| entry_of(init, data));
}

/// Submitting two sequences in either order gives the same entries.
pub proof fn lemma_batch_of_two_swapped(
    init: Seq<u8>,
    s1: Seq<u8>,
    s2: Seq<u8>,
    out_first: Seq<Entry>,
    out_second: Seq<Entry>,
)
    requires
        is_batch_result(Batch { init, pending: seq![s1, s2] }, out_first),
        is_batch_result(Batch { init, pending: seq![s2, s1] }, out_second),
    ensures
        out_first.to_multiset() == out_second.to_multiset(),
{
    broadcast use vstd::seq_lib::group_to_multiset_ensures;

    assert(seq![s1, s2] =~= seq![s1].push(s2));
    assert(seq![s2, s1] =~= seq![s2].push(s1));
    assert(seq![s1] =~= Seq::<Seq<u8>>::empty().push(s1));
    assert(seq![s2] =~= Seq::<Seq<u8>>::empty().push(s2));
    assert(seq![s1, s2].to_multiset() =~= seq![s2, s1].to_multiset());
    lemma_batch_order_independent(init, seq![s1, s2], seq![s2, s1], out_first, out_second);
}

} // verus!
