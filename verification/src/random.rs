//! Where random bytes come from. The engine draws its keys, nonces and
//! identifiers from a source that the caller hands in, so that a run can be
//! repeated with a source whose bytes are known.

use vstd::prelude::*;
use rand::rngs::{OsRng, StdRng};
use rand::{RngCore, SeedableRng};

verus! {

/// The generator behind `SystemRandom`.
#[verifier::external_type_specification]
#[verifier::external_body]
pub struct ExStdRng(rand::rngs::StdRng);

/// The error of `rand` when the operating system gives no entropy.
#[verifier::external_type_specification]
#[verifier::external_body]
pub struct ExRandError(rand::Error);

/// A source of random bytes.
pub trait RandomSource {
    /// Hands out the next `count` bytes of the source.
    fn fill(&mut self, count: usize) -> (bytes: Vec<u8>)
        ensures
            bytes@.len() == count,
    ;
}

/// A cryptographically secure generator, seeded once from the operating
/// system.
pub struct SystemRandom {
    generator: StdRng,
}

/// Calls `StdRng::from_rng` on `OsRng`. Nothing is claimed of the outcome: it
/// fails where the operating system gives no entropy.
#[verifier::external_body]
fn seed_from_os() -> Result<StdRng, rand::Error> {
    StdRng::from_rng(OsRng)
}

/// Calls `RngCore::fill_bytes` of `StdRng` on a fresh buffer. Trusted: the
/// buffer keeps its length of `count` bytes.
#[verifier::external_body]
fn generator_fill(generator: &mut StdRng, count: usize) -> (bytes: Vec<u8>)
    ensures
        bytes@.len() == count,
{
    let mut bytes = vec![0u8; count];
    generator.fill_bytes(&mut bytes);
    bytes
}

impl SystemRandom {
    /// A generator seeded from the operating system, or `None` where the
    /// operating system gives no entropy.
    pub fn new() -> Option<SystemRandom> {
        SystemRandom::from_seeding(seed_from_os())
    }

    /// The source around the generator that seeding gave, or `None` where
    /// seeding failed.
    fn from_seeding(outcome: Result<StdRng, rand::Error>) -> (res: Option<SystemRandom>)
        ensures
            res is Some <==> outcome is Ok,
            res matches Some(source) ==> outcome matches Ok(generator) && source.generator
                == generator,
    {
        match outcome {
            Ok(generator) => Some(SystemRandom { generator }),
            Err(_) => None,
        }
    }
}

impl RandomSource for SystemRandom {
    fn fill(&mut self, count: usize) -> (bytes: Vec<u8>) {
        generator_fill(&mut self.generator, count)
    }
}

/// The bytes that a counting source hands out: `start`, `start + 1`, ...,
/// wrapping round after 255.
pub open spec fn spec_counting_bytes(start: u8, count: nat) -> Seq<u8> {
    Seq::new(count, |i: int| ((start + i) % 256) as u8)
}

/// A source whose bytes are known in advance: it counts upward from where it
/// was started. It is for repeatable runs, never for real keys.
pub struct CountingSource {
    pub next: u8,
}

impl CountingSource {
    /// A source whose first byte is `start`.
    pub fn new(start: u8) -> (source: CountingSource)
        ensures
            source.next == start,
    {
        CountingSource { next: start }
    }
}

impl RandomSource for CountingSource {
    fn fill(&mut self, count: usize) -> (bytes: Vec<u8>)
        ensures
            bytes@ == spec_counting_bytes(old(self).next, count as nat),
            final(self).next == (old(self).next + count) % 256,
    {
        let mut bytes: Vec<u8> = Vec::new();
        let ghost start = self.next;
        let mut i: usize = 0;
        while i < count
            invariant
                i <= count,
                bytes@ == spec_counting_bytes(start, i as nat),
                self.next == (start + i) % 256,
            decreases count - i,
        {
            bytes.push(self.next);
            self.next = if self.next == 255 {
                0
            } else {
                self.next + 1
            };
            i = i + 1;
            proof {
                assert(bytes@ =~= spec_counting_bytes(start, i as nat));
            }
        }
        bytes
    }
}

} // verus!
