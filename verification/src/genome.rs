//! Genomes: the 16-byte trait encoding of a creature, the bitwise
//! crossover that combines two parent genomes under a selector mask, and
//! the pseudo-random genome synthesis used for minting.

use vstd::prelude::*;

verus! {

broadcast use vstd::array::group_array_axioms;

/// A creature: an immutable 16-byte genome, fixed at creation.
#[derive(Clone, Copy, Debug, PartialEq, Eq)]
pub struct Kitty(pub [u8; 16]);

/// One byte of a crossover: every bit is taken from `a` where the
/// corresponding bit of the mask `m` is 1, and from `b` where it is 0.
pub open spec fn cross_byte(a: u8, b: u8, m: u8) -> u8 {
    (a & m) | (b & !m)
}

/// A whole child genome: byte `i` is `cross_byte` of the parents' bytes at
/// `i` under the mask's byte at `i`.
pub open spec fn cross_genome(a: Seq<u8>, b: Seq<u8>, m: Seq<u8>) -> Seq<u8> {
    Seq::new(16, |i: int| cross_byte(a[i], b[i], m[i]))
}

/// Whether bit `k` (counted from the least significant end) of `x` is set.
pub open spec fn bit_of(x: u8, k: u8) -> bool {
    x >> k & 1 == 1
}

/// Crossover selects per bit: wherever the mask bit is 1 the child bit is
/// the corresponding bit of `a`, and wherever it is 0 it is the bit of `b`.
pub proof fn lemma_cross_byte_selects(a: u8, b: u8, m: u8, k: u8)
    requires
        k < 8,
    ensures
        bit_of(cross_byte(a, b, m), k) == if bit_of(m, k) {
            bit_of(a, k)
        } else {
            bit_of(b, k)
        },
{
    assert(m >> k & 1 == 1 ==> ((a & m) | (b & !m)) >> k & 1 == a >> k & 1) by (bit_vector)
        requires k < 8;
    assert(m >> k & 1 != 1 ==> ((a & m) | (b & !m)) >> k & 1 == b >> k & 1) by (bit_vector)
        requires k < 8;
}

/// The crossover law over whole genomes: at every byte position and
/// every bit position within it, the child's bit is the first parent's
/// bit wherever the mask bit is 1, and the second parent's bit wherever
/// it is 0.
pub proof fn lemma_cross_genome_selects(a: Seq<u8>, b: Seq<u8>, m: Seq<u8>, i: int, k: u8)
    requires
        0 <= i < 16,
        k < 8,
    ensures
        bit_of(cross_genome(a, b, m)[i], k) == if bit_of(m[i], k) {
            bit_of(a[i], k)
        } else {
            bit_of(b[i], k)
        },
{
    lemma_cross_byte_selects(a[i], b[i], m[i], k);
}

/// Under an all-ones mask byte the child byte is the byte of `a` entire.
pub proof fn lemma_cross_byte_all_ones(a: u8, b: u8)
    ensures
        cross_byte(a, b, 0xff) == a,
{
    assert((a & 0xffu8) | (b & !0xffu8) == a) by (bit_vector);
}

/// Under an all-zero mask byte the child byte is the byte of `b` entire.
pub proof fn lemma_cross_byte_all_zeros(a: u8, b: u8)
    ensures
        cross_byte(a, b, 0x00) == b,
{
    assert((a & 0x00u8) | (b & !0x00u8) == b) by (bit_vector);
}

/// The eight bytes of `x` in little-endian order.
pub open spec fn le_bytes_8(x: u64) -> Seq<u8> {
    seq![
        x as u8,
        (x >> 8) as u8,
        (x >> 16) as u8,
        (x >> 24) as u8,
        (x >> 32) as u8,
        (x >> 40) as u8,
        (x >> 48) as u8,
        (x >> 56) as u8,
    ]
}

/// The byte string fed to the mixing function when a genome is
/// synthesised: the entropy seed, then the caller's identity, then the
/// per-call sequence number.
pub open spec fn payload_bytes(seed: Seq<u8>, caller: u64, nonce: u64) -> Seq<u8> {
    seed + le_bytes_8(caller) + le_bytes_8(nonce)
}

/// The 16-byte Blake2b digest of a byte string, as the outside hashing
/// routine computes it; a function of the input alone.
pub uninterp spec fn blake2_128_of(data: Seq<u8>) -> Seq<u8>;

/// The genome minted for `caller` under a given entropy seed and
/// sequence number.
pub open spec fn genome_for(seed: Seq<u8>, caller: u64, nonce: u64) -> Seq<u8> {
    blake2_128_of(payload_bytes(seed, caller, nonce))
}

/// Relies on sp_core_hashing::blake2_128: a 16-byte Blake2b digest of the
/// input, determined by the input bytes alone, returned for every input.
#[verifier::external_body]
fn blake2_128(data: &[u8]) -> (r: [u8; 16])
    ensures
        r@ == blake2_128_of(data@),
{
    sp_core_hashing::blake2_128(data)
}

fn push_le_bytes(out: &mut Vec<u8>, x: u64)
    ensures
        final(out)@ == old(out)@ + le_bytes_8(x),
{
    out.push(x as u8);
    out.push((x >> 8) as u8);
    out.push((x >> 16) as u8);
    out.push((x >> 24) as u8);
    out.push((x >> 32) as u8);
    out.push((x >> 40) as u8);
    out.push((x >> 48) as u8);
    out.push((x >> 56) as u8);
    proof {
        assert(out@ =~= old(out)@ + le_bytes_8(x));
    }
}

/// Derive a fresh 16-byte pseudo-random genome from an externally
/// refreshed entropy seed, the caller's identity and a monotonic per-call
/// sequence number, mixed through a fixed 128-bit one-way function.
///
/// This is deliberately not a cryptographically secure randomness source:
/// a party that can predict the seed and steer call ordering can bias the
/// outcome.  It only aims to avoid collisions in practice.
pub fn random_genome(seed: &[u8; 32], caller: u64, nonce: u64) -> (g: [u8; 16])
    ensures
        g@ == genome_for(seed@, caller, nonce),
{
    let mut data: Vec<u8> = Vec::new();
    let mut i: usize = 0;
    while i < 32
        invariant
            i <= 32,
            data@ == seed@.take(i as int),
        decreases 32 - i,
    {
        let ghost prefix = data@;
        data.push(seed[i]);
        proof {
            assert(prefix.push(seed@[i as int]) =~= seed@.take(i as int + 1));
        }
        i += 1;
    }
    proof {
        assert(seed@.take(32) =~= seed@);
    }
    push_le_bytes(&mut data, caller);
    push_le_bytes(&mut data, nonce);
    proof {
        assert(data@ =~= payload_bytes(seed@, caller, nonce));
    }
    blake2_128(data.as_slice())
}

/// Combine two parent genomes into a child genome: a per-bit multiplexer
/// driven by `mask`.  Purely functional; no side effects.
pub fn cross(a: &[u8; 16], b: &[u8; 16], mask: &[u8; 16]) -> (child: [u8; 16])
    ensures
        child@ == cross_genome(a@, b@, mask@),
{
    let mut child = [0u8; 16];
    let mut i: usize = 0;
    while i < 16
        invariant
            i <= 16,
            forall|j: int| 0 <= j < i ==> child@[j] == cross_byte(a@[j], b@[j], mask@[j]),
        decreases 16 - i,
    {
        child[i] = (a[i] & mask[i]) | (b[i] & !mask[i]);
        i += 1;
    }
    proof {
        assert(child@ =~= cross_genome(a@, b@, mask@));
    }
    child
}

} // verus!
