//! The streaming multipart chunk accumulator: the core algorithm.

use vstd::arithmetic::div_mod::lemma_div_pos_is_pos;
use vstd::arithmetic::div_mod::lemma_fundamental_div_mod;
use vstd::arithmetic::div_mod::lemma_fundamental_div_mod_converse_div;
use vstd::arithmetic::div_mod::lemma_fundamental_div_mod_converse_mod;
use vstd::prelude::*;
use vstd::slice::slice_subrange;

use crate::engine::Md5Hasher;
use crate::etag::{ETag, ETagModel};

verus! {

/// The bytes of full part `i` (counted from zero) of stream `s` under part
/// size `p`.
pub open spec fn part_bytes(s: Seq<u8>, p: int, i: int) -> Seq<u8> {
    s.subrange(i * p, i * p + p)
}

/// The trailing bytes of `s` after its first `k` full parts.
pub open spec fn tail_bytes(s: Seq<u8>, p: int, k: int) -> Seq<u8> {
    s.subrange(k * p, s.len() as int)
}

/// The concatenation of the digests of the first `k` full parts of `s`.
pub open spec fn part_digests<H: Md5Hasher>(s: Seq<u8>, p: int, k: int) -> Seq<u8>
    decreases k,
{
    if k <= 0 {
        Seq::empty()
    } else {
        part_digests::<H>(s, p, k - 1) + H::spec_digest(part_bytes(s, p, k - 1))
    }
}

/// The ETag a byte stream `s` resolves to under part size `p`.
///
/// With `k` full parts and `r` trailing bytes: when the stream never went
/// past a single full part (`k == 0`, or `k == 1` with nothing after it) the
/// result is the simple form, the digest of the stream itself. Otherwise the
/// result is the multipart form: the digest of the concatenated part digests
/// (including the trailing partial part, if any), with the part count.
pub open spec fn etag_of<H: Md5Hasher>(p: int, s: Seq<u8>) -> ETagModel
    recommends
        p >= 1,
{
    let k = s.len() as int / p;
    let r = s.len() as int % p;
    if k == 0 || (k == 1 && r == 0) {
        ETagModel { digest: H::spec_digest(s), n_chunks: None }
    } else {
        let digests = if r > 0 {
            part_digests::<H>(s, p, k) + H::spec_digest(tail_bytes(s, p, k))
        } else {
            part_digests::<H>(s, p, k)
        };
        let n = if r > 0 {
            k + 1
        } else {
            k
        };
        ETagModel { digest: H::spec_digest(digests), n_chunks: Some(n) }
    }
}

/// A hasher state that consumes a byte stream, in any chunking, and yields an
/// ETag.
pub trait ETagHasher: Sized {
    /// All bytes processed so far, over every `update` call.
    spec fn processed(&self) -> Seq<u8>;

    /// The fixed part size, for hashers that cut the stream into parts; zero
    /// where none applies.
    spec fn part_size(&self) -> int;

    /// The state is well formed.
    spec fn wf(&self) -> bool;

    /// The ETag a whole stream resolves to under this kind of hasher with
    /// the given part size.
    spec fn spec_result(p: int, s: Seq<u8>) -> ETagModel;

    /// Updates the internal state by processing the data.
    fn update(&mut self, data: &[u8])
        requires
            old(self).wf(),
            old(self).processed().len() + data@.len() <= usize::MAX,
        ensures
            final(self).wf(),
            final(self).processed() == old(self).processed() + data@,
            final(self).part_size() == old(self).part_size(),
    ;

    /// Returns the result, consuming the hasher.
    fn finalize(self) -> (r: ETag)
        requires
            self.wf(),
        ensures
            r@ == Self::spec_result(self.part_size(), self.processed()),
    ;
}

impl<T: Md5Hasher> ETagHasher for T {
    open spec fn processed(&self) -> Seq<u8> {
        self.bytes()
    }

    open spec fn part_size(&self) -> int {
        0
    }

    open spec fn wf(&self) -> bool {
        true
    }

    open spec fn spec_result(p: int, s: Seq<u8>) -> ETagModel {
        ETagModel { digest: T::spec_digest(s), n_chunks: None }
    }

    fn update(&mut self, data: &[u8]) {
        Md5Hasher::update(self, data)
    }

    fn finalize(self) -> (r: ETag) {
        let digest = Md5Hasher::finalize(self);
        ETag::make(digest, None)
    }
}

/// A hasher state for multipart ETag checksum calculation compatible with an
/// object-storage provider's multipart uploads.
///
/// The stream is cut into parts of exactly `chunksize` bytes; each completed
/// part's digest is folded into `hasher_whole`, while `hasher_chunk` holds
/// the current, not yet completed part. `current_capacity` counts the bytes
/// still needed to complete the current part, and `last_part_digest` keeps
/// the digest of the most recently completed part so that a stream of exactly
/// one part can resolve to the simple form.
pub struct ETagHasherMulti<H> {
    chunksize: usize,
    n_chunks: usize,
    hasher_whole: H,
    hasher_chunk: H,
    current_capacity: usize,
    last_part_digest: [u8; 16],
    processed: Ghost<Seq<u8>>,
}

impl<H: Md5Hasher> ETagHasherMulti<H> {
    /// Creates a new hasher configured for a `multipart_chunksize` value.
    pub fn new(chunksize: usize) -> (r: Self)
        requires
            chunksize >= 1,
        ensures
            r.wf(),
            r.processed() == Seq::<u8>::empty(),
            r.part_size() == chunksize as int,
    {
        let r = ETagHasherMulti {
            chunksize,
            n_chunks: 0,
            hasher_whole: H::new(),
            hasher_chunk: H::new(),
            current_capacity: chunksize,
            last_part_digest: [0u8; 16],
            processed: Ghost(Seq::empty()),
        };
        proof {
            assert(tail_bytes(r.processed@, r.chunksize as int, 0) =~= r.processed@);
            assert(r.wf());
        }
        r
    }
}

impl<H: Md5Hasher> ETagHasher for ETagHasherMulti<H> {
    closed spec fn processed(&self) -> Seq<u8> {
        self.processed@
    }

    closed spec fn part_size(&self) -> int {
        self.chunksize as int
    }

    /// The concrete fields agree with the abstract stream: `n_chunks` full
    /// parts have been folded into `hasher_whole`, `hasher_chunk` holds the
    /// trailing bytes, and `current_capacity` is what the current part still
    /// needs.
    closed spec fn wf(&self) -> bool {
        let p = self.chunksize as int;
        let s = self.processed@;
        let k = self.n_chunks as int;
        &&& p >= 1
        &&& s.len() <= usize::MAX
        &&& 1 <= self.current_capacity <= p
        &&& s.len() == k * p + (p - self.current_capacity)
        &&& self.hasher_chunk.bytes() == tail_bytes(s, p, k)
        &&& self.hasher_whole.bytes() == part_digests::<H>(s, p, k)
        &&& (k >= 1 ==> self.last_part_digest@ == H::spec_digest(part_bytes(s, p, k - 1)))
    }

    open spec fn spec_result(p: int, s: Seq<u8>) -> ETagModel {
        etag_of::<H>(p, s)
    }

    fn update(&mut self, data: &[u8]) {
        let mut offset: usize = 0;
        while data.len() - offset >= self.current_capacity
            invariant
                self.wf(),
                self.chunksize == old(self).chunksize,
                offset <= data@.len(),
                old(self).processed@.len() + data@.len() <= usize::MAX,
                self.processed@ == old(self).processed@ + data@.subrange(0, offset as int),
            decreases data@.len() - offset,
        {
            let ghost p = self.chunksize as int;
            let ghost s = self.processed@;
            let ghost k = self.n_chunks as int;
            let used = self.current_capacity;
            let piece = slice_subrange(data, offset, offset + used);
            self.hasher_chunk.update(piece);
            let digest = self.hasher_chunk.finalize_reset();
            self.last_part_digest = digest;
            self.hasher_whole.update(digest.as_slice());
            proof {
                let s2 = s + piece@;
                assert(k * p + p == (k + 1) * p) by (nonlinear_arith);
                assert(0 <= k * p <= (k + 1) * p) by (nonlinear_arith)
                    requires
                        k >= 0,
                        p >= 1,
                ;
                // the bytes the chunk hasher saw are exactly full part k of s2
                assert(tail_bytes(s, p, k) + piece@ =~= part_bytes(s2, p, k));
                // earlier parts are untouched by appending bytes
                lemma_part_digests_stable::<H>(s, piece@, p, k);
                assert(part_digests::<H>(s2, p, k + 1) == part_digests::<H>(s2, p, k)
                    + H::spec_digest(part_bytes(s2, p, k)));
                // the new part count still fits in usize
                assert(k + 1 <= (k + 1) * p) by (nonlinear_arith)
                    requires
                        k >= 0,
                        p >= 1,
                ;
                // the new tail is empty
                assert(tail_bytes(s2, p, k + 1) =~= Seq::<u8>::empty());
            }
            self.n_chunks = self.n_chunks + 1;
            self.current_capacity = self.chunksize;
            self.processed = Ghost(self.processed@ + piece@);
            offset = offset + used;
            proof {
                assert(self.processed@ =~= old(self).processed@ + data@.subrange(
                    0,
                    offset as int,
                ));
            }
        }
        if offset < data.len() {
            let ghost p = self.chunksize as int;
            let ghost s = self.processed@;
            let ghost k = self.n_chunks as int;
            let rest = slice_subrange(data, offset, data.len());
            self.hasher_chunk.update(rest);
            proof {
                let s2 = s + rest@;
                assert(0 <= k * p) by (nonlinear_arith)
                    requires
                        k >= 0,
                        p >= 1,
                ;
                assert(tail_bytes(s, p, k) + rest@ =~= tail_bytes(s2, p, k));
                lemma_part_digests_stable::<H>(s, rest@, p, k);
                if k >= 1 {
                    assert((k - 1) * p + p == k * p) by (nonlinear_arith);
                    assert(0 <= (k - 1) * p) by (nonlinear_arith)
                        requires
                            k >= 1,
                            p >= 1,
                    ;
                    assert(part_bytes(s2, p, k - 1) =~= part_bytes(s, p, k - 1));
                }
            }
            self.current_capacity = self.current_capacity - (data.len() - offset);
            self.processed = Ghost(self.processed@ + rest@);
            proof {
                assert(self.processed@ =~= old(self).processed@ + data@);
            }
        } else {
            proof {
                assert(data@.subrange(0, offset as int) =~= data@);
            }
        }
    }

    fn finalize(self) -> (r: ETag) {
        let ETagHasherMulti {
            chunksize,
            n_chunks,
            hasher_whole,
            hasher_chunk,
            current_capacity,
            last_part_digest,
            processed,
        } = self;
        let ghost p = chunksize as int;
        let ghost s = processed@;
        let ghost k = n_chunks as int;
        proof {
            // s.len() / p == k and s.len() % p == p - current_capacity
            lemma_fundamental_div_mod_converse_div(s.len() as int, p, k, p - current_capacity);
            lemma_fundamental_div_mod_converse_mod(s.len() as int, p, k, p - current_capacity);
        }
        let has_partial = current_capacity < chunksize;
        if n_chunks == 0 {
            let digest = hasher_chunk.finalize();
            proof {
                assert(k * p == 0) by (nonlinear_arith)
                    requires
                        k == 0,
                ;
                assert(s.len() == p - current_capacity);
                assert(tail_bytes(s, p, 0) =~= s);
            }
            ETag::make(digest, None)
        } else if n_chunks == 1 && !has_partial {
            proof {
                assert(k * p == p && 0 * p == 0) by (nonlinear_arith)
                    requires
                        k == 1,
                ;
                assert(s.len() == p);
                assert(part_bytes(s, p, 0) =~= s);
            }
            ETag::make(last_part_digest, None)
        } else {
            let mut whole = hasher_whole;
            let mut count = n_chunks;
            if has_partial {
                let digest = hasher_chunk.finalize();
                whole.update(digest.as_slice());
                proof {
                    // one more part fits: k < k * p + the nonempty tail
                    assert(k <= k * p) by (nonlinear_arith)
                        requires
                            k >= 0,
                            p >= 1,
                    ;
                }
                count = count + 1;
            }
            let digest = whole.finalize();
            ETag::make(digest, Some(count))
        }
    }
}

/// The ETag of a stream depends only on the concatenation of the fed chunks,
/// never on how the caller split it across `update` calls: two partitions
/// with the same flattening resolve to the same ETag. Together with
/// [`ETagHasher::update`], whose postcondition says that the state's
/// processed stream is exactly the concatenation of everything fed, this
/// makes the result independent of the chunking.
pub proof fn lemma_etag_partition_independent<H: Md5Hasher>(
    p: int,
    chunks1: Seq<Seq<u8>>,
    chunks2: Seq<Seq<u8>>,
)
    requires
        p >= 1,
        chunks1.flatten() == chunks2.flatten(),
    ensures
        etag_of::<H>(p, chunks1.flatten()) == etag_of::<H>(p, chunks2.flatten()),
{
}

/// An empty stream resolves to the simple form: the digest of the empty
/// input, with no part count.
pub proof fn lemma_etag_empty<H: Md5Hasher>(p: int, s: Seq<u8>)
    requires
        p >= 1,
        s.len() == 0,
    ensures
        etag_of::<H>(p, s) == (ETagModel { digest: H::spec_digest(s), n_chunks: None }),
{
    lemma_fundamental_div_mod_converse_div(s.len() as int, p, 0, 0);
}

/// A stream shorter than one part resolves to the simple form: the digest of
/// the stream itself, with no part count.
pub proof fn lemma_etag_below_one_part<H: Md5Hasher>(p: int, s: Seq<u8>)
    requires
        p >= 1,
        0 < s.len() < p,
    ensures
        etag_of::<H>(p, s) == (ETagModel { digest: H::spec_digest(s), n_chunks: None }),
{
    lemma_fundamental_div_mod_converse_div(s.len() as int, p, 0, s.len() as int);
}

/// A stream of exactly one part resolves to the simple form: the digest of
/// that one part directly, not the digest of its digest, with no part count.
pub proof fn lemma_etag_exactly_one_part<H: Md5Hasher>(p: int, s: Seq<u8>)
    requires
        p >= 1,
        s.len() == p,
    ensures
        etag_of::<H>(p, s) == (ETagModel { digest: H::spec_digest(s), n_chunks: None }),
{
    assert(s.len() == 1 * p + 0) by (nonlinear_arith)
        requires
            s.len() == p,
    ;
    lemma_fundamental_div_mod_converse_div(s.len() as int, p, 1, 0);
    lemma_fundamental_div_mod_converse_mod(s.len() as int, p, 1, 0);
}

/// A stream of exactly `k >= 2` full parts resolves to the multipart form:
/// the digest of the concatenated part digests, with part count `k`.
pub proof fn lemma_etag_exact_parts<H: Md5Hasher>(p: int, s: Seq<u8>, k: int)
    requires
        p >= 1,
        k >= 2,
        s.len() == k * p,
    ensures
        etag_of::<H>(p, s) == (ETagModel {
            digest: H::spec_digest(part_digests::<H>(s, p, k)),
            n_chunks: Some(k),
        }),
{
    lemma_fundamental_div_mod_converse_div(s.len() as int, p, k, 0);
    lemma_fundamental_div_mod_converse_mod(s.len() as int, p, k, 0);
}

/// A stream of `k >= 1` full parts and `r` trailing bytes (`0 < r < p`)
/// resolves to the multipart form: the digest of the `k` part digests
/// followed by the digest of the trailing partial part, with part count
/// `k + 1`.
pub proof fn lemma_etag_partial_tail<H: Md5Hasher>(p: int, s: Seq<u8>, k: int, r: int)
    requires
        p >= 1,
        k >= 1,
        0 < r < p,
        s.len() == k * p + r,
    ensures
        etag_of::<H>(p, s) == (ETagModel {
            digest: H::spec_digest(part_digests::<H>(s, p, k) + H::spec_digest(tail_bytes(s, p, k))),
            n_chunks: Some(k + 1),
        }),
{
    lemma_fundamental_div_mod_converse_div(s.len() as int, p, k, r);
    lemma_fundamental_div_mod_converse_mod(s.len() as int, p, k, r);
}

/// Whenever a stream resolves to the multipart form, its part count is at
/// least two: a count of one or zero always falls back to the simple form.
pub proof fn lemma_multipart_count_at_least_two<H: Md5Hasher>(p: int, s: Seq<u8>)
    requires
        p >= 1,
    ensures
        match etag_of::<H>(p, s).n_chunks {
            Some(n) => n >= 2,
            None => true,
        },
{
    lemma_fundamental_div_mod(s.len() as int, p);
    lemma_div_pos_is_pos(s.len() as int, p);
}

/// Appending bytes to a stream leaves the digests of its completed full
/// parts unchanged.
proof fn lemma_part_digests_stable<H: Md5Hasher>(s: Seq<u8>, e: Seq<u8>, p: int, k: int)
    requires
        p >= 1,
        0 <= k,
        k * p <= s.len(),
    ensures
        part_digests::<H>(s + e, p, k) == part_digests::<H>(s, p, k),
    decreases k,
{
    if k > 0 {
        assert((k - 1) * p + p == k * p) by (nonlinear_arith);
        assert(0 <= (k - 1) * p) by (nonlinear_arith)
            requires
                k >= 1,
                p >= 1,
        ;
        lemma_part_digests_stable::<H>(s, e, p, k - 1);
        assert(part_bytes(s + e, p, k - 1) =~= part_bytes(s, p, k - 1));
    }
}

} // verus!
