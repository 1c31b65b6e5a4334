//! Chunk boundary arithmetic: a file of `total_size` bytes is cut into ranges
//! of `chunk_size` bytes, the last one possibly shorter. An empty file is one
//! empty range, so that it takes the same path as any other file.

use vstd::prelude::*;
use crate::error::{EngineError, ErrorKind, plain_error};

verus! {

/// How many ranges a file of `total_size` bytes has.
pub open spec fn spec_chunk_count(total_size: nat, chunk_size: nat) -> nat
    recommends
        chunk_size > 0,
{
    if total_size == 0 {
        1
    } else {
        ((total_size + chunk_size - 1) / (chunk_size as int)) as nat
    }
}

/// Where range `index` starts.
pub open spec fn spec_chunk_offset(chunk_size: nat, index: nat) -> nat {
    index * chunk_size
}

/// How long range `index` is: a full `chunk_size`, or what is left of the file.
pub open spec fn spec_chunk_len(total_size: nat, chunk_size: nat, index: nat) -> nat {
    let start = index * chunk_size;
    if start + chunk_size <= total_size {
        chunk_size
    } else if start <= total_size {
        (total_size - start) as nat
    } else {
        0
    }
}

/// Every range lies within the file, every range but the last is full, the
/// last one ends where the file ends, and no range of a file that is not
/// empty is empty.
pub proof fn lemma_chunk_bounds(total_size: nat, chunk_size: nat, index: nat)
    requires
        chunk_size > 0,
        index < spec_chunk_count(total_size, chunk_size),
    ensures
        spec_chunk_offset(chunk_size, index) + spec_chunk_len(total_size, chunk_size, index)
            <= total_size,
        index + 1 < spec_chunk_count(total_size, chunk_size) ==> spec_chunk_len(
            total_size,
            chunk_size,
            index,
        ) == chunk_size,
        index + 1 == spec_chunk_count(total_size, chunk_size) ==> spec_chunk_offset(
            chunk_size,
            index,
        ) + spec_chunk_len(total_size, chunk_size, index) == total_size,
        total_size > 0 ==> spec_chunk_len(total_size, chunk_size, index) > 0,
        spec_chunk_offset(chunk_size, index + 1) == spec_chunk_offset(chunk_size, index)
            + chunk_size,
{
    let c = chunk_size as int;
    let t = total_size as int;
    let i = index as int;
    assert((i + 1) * c == i * c + c) by (nonlinear_arith);
    if total_size > 0 {
        let q = (t + c - 1) / c;
        let r = (t + c - 1) % c;
        assert(t + c - 1 == q * c + r && 0 <= r < c) by (nonlinear_arith)
            requires
                c > 0,
                q == (t + c - 1) / c,
                r == (t + c - 1) % c,
        ;
        // (q - 1) * c < t <= q * c
        assert((q - 1) * c == q * c - c) by (nonlinear_arith);
        assert(i * c <= (q - 1) * c) by (nonlinear_arith)
            requires
                i <= q - 1,
                c > 0,
        ;
        if i + 1 < q {
            assert((i + 1) * c <= (q - 1) * c) by (nonlinear_arith)
                requires
                    i + 1 <= q - 1,
                    c > 0,
            ;
        }
    } else {
        assert(i * c == 0) by (nonlinear_arith)
            requires
                i == 0,
        ;
    }
}

/// The final range holds `total_size mod chunk_size` bytes, or a full
/// `chunk_size` where that remainder is zero and the file is not empty.
pub proof fn lemma_last_chunk_len(total_size: nat, chunk_size: nat)
    requires
        chunk_size > 0,
    ensures
        spec_chunk_count(total_size, chunk_size) >= 1,
        spec_chunk_len(
            total_size,
            chunk_size,
            (spec_chunk_count(total_size, chunk_size) - 1) as nat,
        ) == if total_size == 0 {
            0
        } else if total_size % chunk_size == 0 {
            chunk_size
        } else {
            total_size % chunk_size
        },
{
    let c = chunk_size as int;
    let t = total_size as int;
    if total_size > 0 {
        let q = (t + c - 1) / c;
        let r = (t + c - 1) % c;
        assert(t + c - 1 == q * c + r && 0 <= r < c) by (nonlinear_arith)
            requires
                c > 0,
                q == (t + c - 1) / c,
                r == (t + c - 1) % c,
        ;
        assert(q >= 1) by (nonlinear_arith)
            requires
                t + c - 1 == q * c + r,
                0 <= r < c,
                t > 0,
                c > 0,
        ;
        assert((q - 1) * c == q * c - c) by (nonlinear_arith);
        lemma_chunk_bounds(total_size, chunk_size, (q - 1) as nat);
        // t == (q - 1) * c + len, with 0 < len <= c
        let len = spec_chunk_len(total_size, chunk_size, (q - 1) as nat) as int;
        assert(t == (q - 1) * c + len);
        if len == c {
            assert(t % c == 0) by (nonlinear_arith)
                requires
                    t == (q - 1) * c + c,
                    c > 0,
            ;
        } else {
            assert(t % c == len) by (nonlinear_arith)
                requires
                    t == (q - 1) * c + len,
                    0 < len < c,
            ;
        }
    } else {
        assert(0 * c == 0) by (nonlinear_arith);
    }
}

/// Where range `index` starts, and for the index after the last range,
/// where the file ends.
pub open spec fn spec_chunk_start(total_size: nat, chunk_size: nat, index: nat) -> nat {
    if index < spec_chunk_count(total_size, chunk_size) {
        spec_chunk_offset(chunk_size, index)
    } else {
        total_size
    }
}

/// The ranges cover the file without gap or overlap: the first starts at
/// zero, each ends where the next one starts, and the last ends where the
/// file ends.
pub proof fn lemma_chunks_adjoin(total_size: nat, chunk_size: nat, index: nat)
    requires
        chunk_size > 0,
        index < spec_chunk_count(total_size, chunk_size),
    ensures
        spec_chunk_start(total_size, chunk_size, index) + spec_chunk_len(
            total_size,
            chunk_size,
            index,
        ) == spec_chunk_start(total_size, chunk_size, index + 1),
        spec_chunk_start(total_size, chunk_size, index + 1) <= total_size,
        spec_chunk_start(total_size, chunk_size, 0) == 0,
{
    lemma_chunk_bounds(total_size, chunk_size, index);
    assert(0 * chunk_size == 0) by (nonlinear_arith);
    if index + 1 < spec_chunk_count(total_size, chunk_size) {
        lemma_chunk_bounds(total_size, chunk_size, index + 1);
    }
}

/// The number of ranges of a file; a chunk size of zero is refused.
pub fn chunk_count(total_size: usize, chunk_size: usize) -> (res: Result<usize, EngineError>)
    ensures
        res is Err <==> chunk_size == 0,
        res matches Err(e) ==> e == plain_error(ErrorKind::InvalidConfiguration),
        res matches Ok(n) ==> n == spec_chunk_count(total_size as nat, chunk_size as nat),
{
    if chunk_size == 0 {
        return Err(EngineError::new(ErrorKind::InvalidConfiguration));
    }
    if total_size == 0 {
        return Ok(1);
    }
    let full: usize = total_size / chunk_size;
    let rest: usize = total_size % chunk_size;
    proof {
        let c = chunk_size as int;
        let t = total_size as int;
        assert(t == full * c + rest) by (nonlinear_arith)
            requires
                c > 0,
                full == t / c,
                rest == t % c,
        ;
        if rest == 0 {
            assert((t + c - 1) / c == full) by (nonlinear_arith)
                requires
                    t == full * c,
                    c > 0,
            ;
        } else {
            assert((t + c - 1) / c == full + 1) by (nonlinear_arith)
                requires
                    t == full * c + rest,
                    0 < rest < c,
            ;
            assert(full < t) by (nonlinear_arith)
                requires
                    t == full * c + rest,
                    0 < rest,
                    c > 0,
                    full >= 0,
            ;
        }
    }
    if rest == 0 {
        Ok(full)
    } else {
        Ok(full + 1)
    }
}

/// Range `index` of a file as `(offset, length)`, if the file has such a range.
pub fn chunk_range(total_size: usize, chunk_size: usize, index: usize) -> (res: Option<
    (usize, usize),
>)
    ensures
        res is Some <==> chunk_size > 0 && index < spec_chunk_count(
            total_size as nat,
            chunk_size as nat,
        ),
        res matches Some((offset, length)) ==> offset == spec_chunk_offset(
            chunk_size as nat,
            index as nat,
        ) && length == spec_chunk_len(total_size as nat, chunk_size as nat, index as nat),
{
    match chunk_count(total_size, chunk_size) {
        Err(_) => None,
        Ok(count) => {
            if index >= count {
                return None;
            }
            proof {
                lemma_chunk_bounds(total_size as nat, chunk_size as nat, index as nat);
            }
            let offset: usize = index * chunk_size;
            let rest: usize = total_size - offset;
            let length: usize = if rest < chunk_size {
                rest
            } else {
                chunk_size
            };
            Some((offset, length))
        },
    }
}

/// A walk over the ranges of one file, handing out one range per call.
pub struct Chunker {
    total_size: usize,
    chunk_size: usize,
    count: usize,
    index: usize,
}

impl Chunker {
    #[verifier::type_invariant]
    spec fn valid(self) -> bool {
        &&& self.chunk_size > 0
        &&& self.count == spec_chunk_count(self.total_size as nat, self.chunk_size as nat)
        &&& self.index <= self.count
    }

    /// The length of the file being cut.
    pub closed spec fn total_size(self) -> nat {
        self.total_size as nat
    }

    /// The nominal length of a range.
    pub closed spec fn chunk_size(self) -> nat {
        self.chunk_size as nat
    }

    /// How many ranges have been handed out so far.
    pub closed spec fn position(self) -> nat {
        self.index as nat
    }

    /// Starts a walk at the first range; a chunk size of zero is refused.
    pub fn new(total_size: usize, chunk_size: usize) -> (res: Result<Chunker, EngineError>)
        ensures
            res is Err <==> chunk_size == 0,
            res matches Err(e) ==> e == plain_error(ErrorKind::InvalidConfiguration),
            res matches Ok(c) ==> c.total_size() == total_size && c.chunk_size() == chunk_size
                && c.position() == 0,
    {
        match chunk_count(total_size, chunk_size) {
            Err(e) => Err(e),
            Ok(count) => Ok(Chunker { total_size, chunk_size, count, index: 0 }),
        }
    }

    /// Hands out the next range, or `None` once every range has been handed out.
    pub fn next_range(&mut self) -> (res: Option<(usize, usize)>)
        ensures
            final(self).total_size() == old(self).total_size(),
            final(self).chunk_size() == old(self).chunk_size(),
            old(self).chunk_size() > 0,
            res is Some <==> old(self).position() < spec_chunk_count(
                old(self).total_size(),
                old(self).chunk_size(),
            ),
            res matches Some((offset, length)) ==> offset == spec_chunk_offset(
                old(self).chunk_size(),
                old(self).position(),
            ) && length == spec_chunk_len(
                old(self).total_size(),
                old(self).chunk_size(),
                old(self).position(),
            ) && final(self).position() == old(self).position() + 1,
            res is None ==> final(self).position() == old(self).position(),
    {
        proof {
            use_type_invariant(&*self);
        }
        if self.index >= self.count {
            return None;
        }
        let range = chunk_range(self.total_size, self.chunk_size, self.index);
        self.index = self.index + 1;
        range
    }

    /// Goes back to the first range.
    pub fn restart(&mut self)
        ensures
            final(self).total_size() == old(self).total_size(),
            final(self).chunk_size() == old(self).chunk_size(),
            final(self).position() == 0,
    {
        proof {
            use_type_invariant(&*self);
        }
        self.index = 0;
    }
}

/// Every range of a file, in order; a chunk size of zero is refused.
pub fn split(total_size: usize, chunk_size: usize) -> (res: Result<Vec<(usize, usize)>, EngineError>)
    ensures
        res is Err <==> chunk_size == 0,
        res matches Err(e) ==> e == plain_error(ErrorKind::InvalidConfiguration),
        res matches Ok(ranges) ==> ranges@.len() == spec_chunk_count(
            total_size as nat,
            chunk_size as nat,
        ) && forall|i: int|
            0 <= i < ranges@.len() ==> (#[trigger] ranges@[i]).0 == spec_chunk_offset(
                chunk_size as nat,
                i as nat,
            ) && ranges@[i].1 == spec_chunk_len(total_size as nat, chunk_size as nat, i as nat),
{
    let mut walk = match Chunker::new(total_size, chunk_size) {
        Err(e) => {
            return Err(e);
        },
        Ok(walk) => walk,
    };
    let mut ranges: Vec<(usize, usize)> = Vec::new();
    loop
        invariant
            chunk_size > 0,
            walk.total_size() == total_size,
            walk.chunk_size() == chunk_size,
            walk.position() == ranges@.len(),
            walk.position() <= spec_chunk_count(total_size as nat, chunk_size as nat),
            forall|i: int|
                0 <= i < ranges@.len() ==> (#[trigger] ranges@[i]).0 == spec_chunk_offset(
                    chunk_size as nat,
                    i as nat,
                ) && ranges@[i].1 == spec_chunk_len(
                    total_size as nat,
                    chunk_size as nat,
                    i as nat,
                ),
        ensures
            ranges@.len() == spec_chunk_count(total_size as nat, chunk_size as nat),
        decreases spec_chunk_count(total_size as nat, chunk_size as nat) - walk.position(),
    {
        match walk.next_range() {
            None => {
                break ;
            },
            Some(range) => {
                ranges.push(range);
            },
        }
    }
    Ok(ranges)
}

} // verus!
