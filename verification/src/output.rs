//! The output of a session, in the pieces in which it is passed on.

use bytes::Bytes;
use vstd::prelude::*;
use vstd::slice::slice_subrange;
use crate::error::Error;
use crate::session::READ_CHUNK;

verus! {

/// `bytes::Bytes`, a piece of bytes that can be shared.
#[verifier::external_type_specification]
#[verifier::external_body]
pub struct ExBytes(Bytes);

/// The bytes that a piece holds.
pub uninterp spec fn contents(piece: Bytes) -> Seq<u8>;

/// `Bytes::copy_from_slice` makes a piece that holds the bytes of the slice.
pub assume_specification[ Bytes::copy_from_slice ](data: &[u8]) -> (r: Bytes)
    ensures
        contents(r) == data@,
;

/// Whether `r` is what comes of a read of `n` bytes into a buffer: a piece that holds them, or the end
/// of the output if there are none.
pub open spec fn came_of(buf: Seq<u8>, n: int, r: Result<Bytes, Error>) -> bool {
    match r {
        Ok(piece) => n > 0 && contents(piece) == buf.take(n),
        Err(e) => n == 0 && e is PipeClosed,
    }
}

/// The piece of output that a read of `n` bytes into a buffer brought. A read that brings nothing
/// means that the output is at its end.
pub fn read_piece(buf: &[u8], n: usize) -> (r: Result<Bytes, Error>)
    requires
        n <= buf@.len(),
    ensures
        came_of(buf@, n as int, r),
{
    if n == 0 {
        return Err(Error::PipeClosed);
    }
    let read = slice_subrange(buf, 0, n);
    assert(read@ =~= buf@.take(n as int));
    Ok(Bytes::copy_from_slice(read))
}

/// How many bytes the first `k` of some reads brought.
pub open spec fn brought(lens: Seq<nat>, k: int) -> nat
    decreases k,
{
    if k <= 0 {
        0
    } else {
        brought(lens, k - 1) + lens[k - 1]
    }
}

/// Whether a read has put the next bytes of what is delivered at the front of its buffer, which is as
/// long as a read can be, and `results[k]` came of it.
pub open spec fn read_at(
    delivered: Seq<u8>,
    bufs: Seq<Seq<u8>>,
    lens: Seq<nat>,
    results: Seq<Result<Bytes, Error>>,
    k: int,
) -> bool {
    &&& bufs[k].len() == READ_CHUNK
    &&& lens[k] <= READ_CHUNK
    &&& brought(lens, k + 1) <= delivered.len()
    &&& bufs[k].take(lens[k] as int) == delivered.subrange(
        brought(lens, k) as int,
        brought(lens, k + 1) as int,
    )
    &&& came_of(bufs[k], lens[k] as int, results[k])
}

/// Successive reads of a session's output: the buffer of each, how many bytes it brought, and what
/// came of it. After the end of the output there is no read any more.
pub open spec fn is_reading(
    delivered: Seq<u8>,
    bufs: Seq<Seq<u8>>,
    lens: Seq<nat>,
    results: Seq<Result<Bytes, Error>>,
) -> bool {
    &&& bufs.len() == results.len()
    &&& lens.len() == results.len()
    &&& forall|k: int|
        0 <= k < results.len() ==> #[trigger] read_at(delivered, bufs, lens, results, k)
    &&& forall|k: int| 0 <= k < results.len() - 1 ==> (#[trigger] results[k]) is Ok
}

/// The bytes of the pieces among some results, one after the other.
pub open spec fn passed_on(results: Seq<Result<Bytes, Error>>) -> Seq<u8>
    decreases results.len(),
{
    if results.len() == 0 {
        seq![]
    } else {
        passed_on(results.drop_last()) + match results.last() {
            Ok(piece) => contents(piece),
            Err(_) => seq![],
        }
    }
}

proof fn lemma_passed_on(
    delivered: Seq<u8>,
    bufs: Seq<Seq<u8>>,
    lens: Seq<nat>,
    results: Seq<Result<Bytes, Error>>,
    k: int,
)
    requires
        is_reading(delivered, bufs, lens, results),
        0 <= k <= results.len(),
    ensures
        brought(lens, k) <= delivered.len(),
        passed_on(results.take(k)) == delivered.take(brought(lens, k) as int),
    decreases k,
{
    if k > 0 {
        let i = k - 1;
        lemma_passed_on(delivered, bufs, lens, results, i);
        assert(read_at(delivered, bufs, lens, results, i));
        assert(results.take(k).drop_last() =~= results.take(i));
        assert(results.take(k).last() == results[i]);
        let a = brought(lens, i) as int;
        let b = brought(lens, k) as int;
        assert(delivered.take(a) + delivered.subrange(a, b) =~= delivered.take(b));
        assert(passed_on(results.take(k)) =~= delivered.take(b));
    } else {
        assert(results.take(0).len() == 0);
        assert(delivered.take(0) =~= seq![]);
    }
}

/// The pieces of a session's output, one after the other, are the bytes that its reads brought, all
/// of them and no others. Each piece has one byte at least and at most as many as are read at a time.
/// A read that brings nothing is the end of the output, and nothing else is.
pub proof fn output_is_passed_on(
    delivered: Seq<u8>,
    bufs: Seq<Seq<u8>>,
    lens: Seq<nat>,
    results: Seq<Result<Bytes, Error>>,
)
    requires
        is_reading(delivered, bufs, lens, results),
        brought(lens, results.len() as int) == delivered.len(),
    ensures
        passed_on(results) == delivered,
        forall|k: int|
            0 <= k < results.len() ==> match #[trigger] results[k] {
                Ok(piece) => 1 <= contents(piece).len() <= READ_CHUNK,
                Err(e) => e is PipeClosed && k == results.len() - 1 && lens[k] == 0,
            },
        results.len() > 0 && lens.last() == 0 ==> results.last() is Err,
{
    let n = results.len() as int;
    lemma_passed_on(delivered, bufs, lens, results, n);
    assert(results.take(n) =~= results);
    assert(delivered.take(delivered.len() as int) =~= delivered);
    assert forall|k: int| 0 <= k < n implies match #[trigger] results[k] {
        Ok(piece) => 1 <= contents(piece).len() <= READ_CHUNK,
        Err(e) => e is PipeClosed && k == n - 1 && lens[k] == 0,
    } by {
        assert(read_at(delivered, bufs, lens, results, k));
    }
    if n > 0 {
        assert(read_at(delivered, bufs, lens, results, n - 1));
    }
}

} // verus!
