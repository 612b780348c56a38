//! The write side of the engine: accumulates bytes, emits full blocks, and
//! terminates the stream with the reserved end-of-file block.

use vstd::prelude::*;

use crate::block::{
    encode_block, eof_marker, eof_marker_bytes, is_eof_at, spec_decode, spec_encode, encode_fits,
    MAX_BLOCK_PAYLOAD,
};
use crate::endian::{push_u32_le, u32_to_le};
use crate::error::Error;
use crate::stream::spec_stream;
use crate::zlib::{deflate_of, inflate_result};

verus! {

/// The bytes `t` hold, from `pos` to `end`, exactly the encoded blocks of
/// the payloads `bs`, each non-empty and each carrying the round-trip
/// facts the compression boundary provides.
pub open spec fn blocks_cover(t: Seq<u8>, pos: int, end: int, bs: Seq<Seq<u8>>) -> bool
    decreases bs.len(),
{
    if bs.len() == 0 {
        0 <= pos == end <= t.len()
    } else {
        let p = bs[0];
        let n = spec_encode(p).len() as int;
        &&& p.len() > 0
        &&& encode_fits(p)
        &&& inflate_result(deflate_of(p)) == Some(p)
        &&& 0 <= pos
        &&& pos + n <= end <= t.len()
        &&& t.subrange(pos, pos + n) == spec_encode(p)
        &&& blocks_cover(t, pos + n, end, bs.drop_first())
    }
}

/// An encoded block decodes the same wherever it sits in a longer byte
/// string.
proof fn lemma_decode_at(s: Seq<u8>, pos: int, p: Seq<u8>)
    requires
        encode_fits(p),
        inflate_result(deflate_of(p)) == Some(p),
        0 <= pos,
        pos + spec_encode(p).len() <= s.len(),
        s.subrange(pos, pos + spec_encode(p).len() as int) == spec_encode(p),
    ensures
        spec_decode(s, pos) == Ok::<(Seq<u8>, int), Error>((p, spec_encode(p).len() as int)),
{
    let enc = spec_encode(p);
    let c = deflate_of(p);
    let total = 26 + c.len() as int;
    crate::endian::lemma_le_round_trip((25 + c.len()) as u16, crate::zlib::crc32_of(p), 0);
    crate::endian::lemma_le_round_trip(0, p.len() as u32, 0);
    assert(enc.len() == total);
    assert forall|a: int, b: int| 0 <= a <= b <= total implies s.subrange(pos + a, pos + b)
        =~= enc.subrange(a, b) by {
        assert forall|j: int| 0 <= j < b - a implies s.subrange(pos + a, pos + b)[j]
            == enc.subrange(a, b)[j] by {
            assert(s.subrange(pos + a, pos + b)[j] == s[pos + a + j]);
            assert(s[pos + a + j] == s.subrange(pos, pos + total)[a + j]);
        }
    }
    assert(s[pos] == enc[0] && s[pos + 1] == enc[1] && s[pos + 2] == enc[2] && s[pos + 3]
        == enc[3]) by {
        assert(s.subrange(pos, pos + total)[0] == enc[0]);
        assert(s.subrange(pos, pos + total)[1] == enc[1]);
        assert(s.subrange(pos, pos + total)[2] == enc[2]);
        assert(s.subrange(pos, pos + total)[3] == enc[3]);
    }
    assert(s.subrange(pos + 10, pos + 12) =~= enc.subrange(10, 12));
    assert(enc.subrange(10, 12) =~= seq![0x06u8, 0u8]);
    assert(crate::endian::u16_from_le(seq![0x06u8, 0u8]) == 6);
    let extra = s.subrange(pos + 12, pos + 18);
    assert(extra =~= enc.subrange(12, 18));
    assert(enc.subrange(12, 18) =~= seq![0x42u8, 0x43u8, 0x02u8, 0u8] + crate::endian::u16_to_le(
        (25 + c.len()) as u16,
    ));
    assert(extra.subrange(2, 4) =~= seq![0x02u8, 0u8]);
    assert(crate::endian::u16_from_le(seq![0x02u8, 0u8]) == 2);
    assert(extra.subrange(4, 6) =~= crate::endian::u16_to_le((25 + c.len()) as u16));
    assert(crate::block::spec_find_bsize(extra) == Some((25 + c.len()) as u16));
    assert(s.subrange(pos + 18, pos + total - 8) =~= enc.subrange(18, total - 8));
    assert(enc.subrange(18, total - 8) =~= c);
    assert(s.subrange(pos + total - 8, pos + total - 4) =~= enc.subrange(total - 8, total - 4));
    assert(enc.subrange(total - 8, total - 4) =~= u32_to_le(crate::zlib::crc32_of(p)));
    assert(s.subrange(pos + total - 4, pos + total) =~= enc.subrange(total - 4, total));
    assert(enc.subrange(total - 4, total) =~= u32_to_le(p.len() as u32));
}

/// The encoded block of a non-empty payload is never the terminator
/// block: its size or uncompressed-size field differs.
proof fn lemma_encode_not_eof(t: Seq<u8>, pos: int, p: Seq<u8>)
    requires
        p.len() > 0,
        encode_fits(p),
        0 <= pos,
        pos + spec_encode(p).len() <= t.len(),
        t.subrange(pos, pos + spec_encode(p).len() as int) == spec_encode(p),
    ensures
        !is_eof_at(t, pos),
{
    let enc = spec_encode(p);
    let c = deflate_of(p);
    let total = 26 + c.len() as int;
    let bsize = (25 + c.len()) as u16;
    crate::endian::lemma_le_round_trip(bsize, 0, 0);
    crate::endian::lemma_le_round_trip(0, p.len() as u32, 0);
    if is_eof_at(t, pos) {
        let w = t.subrange(pos, pos + 28);
        assert(w == eof_marker());
        if total != 28 {
            assert(t[pos + 16] == enc[16] && t[pos + 17] == enc[17]) by {
                assert(t.subrange(pos, pos + total)[16] == enc[16]);
                assert(t.subrange(pos, pos + total)[17] == enc[17]);
            }
            assert(enc[16] == crate::endian::u16_to_le(bsize)[0]);
            assert(enc[17] == crate::endian::u16_to_le(bsize)[1]);
            assert(w[16] == eof_marker()[16] && w[17] == eof_marker()[17]);
            assert(t[pos + 16] == eof_marker()[16] && t[pos + 17] == eof_marker()[17]);
            assert(eof_marker()[16] == 0x1b && eof_marker()[17] == 0);
            assert(bsize % 0x100 == 0x1b && bsize / 0x100 == 0);
            assert(bsize == 27);
            assert(false);
        } else {
            assert forall|j: int| 24 <= j < 28 implies t[pos + j] == enc[j] by {
                assert(t.subrange(pos, pos + total)[j] == enc[j]);
            }
            assert forall|j: int| 24 <= j < 28 implies enc[j] == u32_to_le(p.len() as u32)[j
                - 24] by {}
            assert(eof_marker()[24] == 0 && eof_marker()[25] == 0 && eof_marker()[26] == 0
                && eof_marker()[27] == 0);
            assert(t[pos + 24] == eof_marker()[24] && t[pos + 25] == eof_marker()[25] && t[pos
                + 26] == eof_marker()[26] && t[pos + 27] == eof_marker()[27]);
            assert(u32_to_le(p.len() as u32) =~= seq![0u8, 0u8, 0u8, 0u8]);
            assert(crate::endian::u32_from_le(seq![0u8, 0u8, 0u8, 0u8]) == 0);
            assert(p.len() as u32 == 0);
            assert(false);
        }
    }
}

/// Covered blocks stay covered when bytes are appended after `end`.
proof fn lemma_cover_extend(t: Seq<u8>, ext: Seq<u8>, pos: int, end: int, bs: Seq<Seq<u8>>)
    requires
        blocks_cover(t, pos, end, bs),
    ensures
        blocks_cover(t + ext, pos, end, bs),
    decreases bs.len(),
{
    if bs.len() == 0 {
    } else {
        let p = bs[0];
        let n = spec_encode(p).len() as int;
        assert((t + ext).subrange(pos, pos + n) =~= t.subrange(pos, pos + n));
        lemma_cover_extend(t, ext, pos + n, end, bs.drop_first());
    }
}

/// Appending one more encoded block extends the cover by its payload.
proof fn lemma_cover_snoc(t: Seq<u8>, pos: int, end: int, bs: Seq<Seq<u8>>, p: Seq<u8>)
    requires
        blocks_cover(t, pos, end, bs),
        p.len() > 0,
        encode_fits(p),
        inflate_result(deflate_of(p)) == Some(p),
        end + spec_encode(p).len() <= t.len(),
        t.subrange(end, end + spec_encode(p).len() as int) == spec_encode(p),
    ensures
        blocks_cover(t, pos, end + spec_encode(p).len() as int, bs.push(p)),
    decreases bs.len(),
{
    let n = spec_encode(p).len() as int;
    if bs.len() == 0 {
        assert(bs.push(p)[0] == p);
        assert(bs.push(p).drop_first() =~= Seq::<Seq<u8>>::empty());
        assert(blocks_cover(t, pos + n, end + n, bs.push(p).drop_first()));
        assert(blocks_cover(t, pos, end + n, bs.push(p)));
    } else {
        lemma_cover_snoc(t, pos + spec_encode(bs[0]).len() as int, end, bs.drop_first(), p);
        assert(bs.push(p)[0] == bs[0]);
        assert(bs.push(p).drop_first() =~= bs.drop_first().push(p));
        assert(blocks_cover(t, pos + spec_encode(bs[0]).len() as int, end + n,
            bs.push(p).drop_first()));
        assert(blocks_cover(t, pos, end + n, bs.push(p)));
    }
}

/// A cover that runs up to a terminator block decodes, as a stream, to
/// exactly its payloads — under either end-of-stream mode.
proof fn lemma_cover_stream_eof(t: Seq<u8>, pos: int, end: int, bs: Seq<Seq<u8>>, strict: bool)
    requires
        blocks_cover(t, pos, end, bs),
        is_eof_at(t, end),
    ensures
        spec_stream(t, pos, strict) == Ok::<Seq<Seq<u8>>, Error>(bs),
    decreases bs.len(),
{
    if bs.len() == 0 {
        assert(spec_stream(t, pos, strict) == Ok::<Seq<Seq<u8>>, Error>(Seq::empty()));
        assert(bs =~= Seq::<Seq<u8>>::empty());
    } else {
        let p = bs[0];
        let n = spec_encode(p).len() as int;
        lemma_encode_not_eof(t, pos, p);
        lemma_decode_at(t, pos, p);
        lemma_cover_stream_eof(t, pos + n, end, bs.drop_first(), strict);
        assert(seq![p] + bs.drop_first() =~= bs);
    }
}

/// A cover that runs to the end of the bytes decodes, as a stream, to its
/// payloads in lenient mode and to a missing-terminator error in strict
/// mode.
proof fn lemma_cover_stream_end(t: Seq<u8>, pos: int, end: int, bs: Seq<Seq<u8>>)
    requires
        blocks_cover(t, pos, end, bs),
        end == t.len(),
    ensures
        spec_stream(t, pos, false) == Ok::<Seq<Seq<u8>>, Error>(bs),
        spec_stream(t, pos, true) == Err::<Seq<Seq<u8>>, Error>(Error::MissingEofMarker),
    decreases bs.len(),
{
    if bs.len() == 0 {
        assert(bs =~= Seq::<Seq<u8>>::empty());
    } else {
        let p = bs[0];
        let n = spec_encode(p).len() as int;
        lemma_encode_not_eof(t, pos, p);
        lemma_decode_at(t, pos, p);
        lemma_cover_stream_end(t, pos + n, end, bs.drop_first());
        assert(seq![p] + bs.drop_first() =~= bs);
    }
}

/// Every full block-sized chunk that writing these bytes would flush can
/// be carried by one encoded block. Chunk `k` is flushed only once a byte
/// beyond it arrives, so the last (possibly full) chunk stays pending.
pub open spec fn pending_chunks_fit(all: Seq<u8>) -> bool {
    forall|k: int|
        0 <= k && (k + 1) * (MAX_BLOCK_PAYLOAD as int) < all.len() ==> encode_fits(
            #[trigger] all.subrange(
                k * (MAX_BLOCK_PAYLOAD as int),
                (k + 1) * (MAX_BLOCK_PAYLOAD as int),
            ),
        )
}

/// The write side of the engine: buffers bytes, encodes a block whenever
/// the buffer reaches the payload cap, and appends the terminator on
/// `finish`.
pub struct BlockWriter {
    dst: Vec<u8>,
    buf: Vec<u8>,
    done: bool,
    payloads: Ghost<Seq<Seq<u8>>>,
}

impl BlockWriter {
    /// The encoded output so far.
    pub closed spec fn spec_dst(self) -> Seq<u8> {
        self.dst@
    }

    /// The bytes accepted but not yet encoded.
    pub closed spec fn spec_buf(self) -> Seq<u8> {
        self.buf@
    }

    /// Whether the terminator has been written.
    pub closed spec fn spec_done(self) -> bool {
        self.done
    }

    /// The payloads of the blocks encoded so far.
    pub closed spec fn spec_payloads(self) -> Seq<Seq<u8>> {
        self.payloads@
    }

    /// Every byte accepted so far, in order.
    pub open spec fn written(self) -> Seq<u8> {
        self.spec_payloads().flatten() + self.spec_buf()
    }

    /// The writer's structural invariant: the output is exactly the
    /// encoded blocks of the recorded payloads (followed by the
    /// terminator once finished), and the pending buffer is within the
    /// payload cap.
    pub open spec fn wf(self) -> bool {
        &&& self.spec_buf().len() <= MAX_BLOCK_PAYLOAD
        &&& if self.spec_done() {
            &&& self.spec_buf().len() == 0
            &&& blocks_cover(
                self.spec_dst(),
                0,
                self.spec_dst().len() - 28,
                self.spec_payloads(),
            )
            &&& is_eof_at(self.spec_dst(), self.spec_dst().len() - 28)
        } else {
            blocks_cover(self.spec_dst(), 0, self.spec_dst().len() as int, self.spec_payloads())
        }
    }

    /// A fresh writer with no output.
    pub fn new() -> (r: Self)
        ensures
            r.wf(),
            !r.spec_done(),
            r.written() == Seq::<u8>::empty(),
            r.spec_dst() == Seq::<u8>::empty(),
            r.spec_payloads() == Seq::<Seq<u8>>::empty(),
    {
        let w = BlockWriter {
            dst: Vec::new(),
            buf: Vec::new(),
            done: false,
            payloads: Ghost(Seq::empty()),
        };
        proof {
            assert(w.written() =~= Seq::<u8>::empty());
        }
        w
    }

    /// Encodes the pending buffer as one block.
    fn flush_block(&mut self) -> (r: Result<(), Error>)
        requires
            old(self).wf(),
            !old(self).spec_done(),
            old(self).spec_buf().len() > 0,
        ensures
            final(self).wf(),
            !final(self).spec_done(),
            r matches Ok(u) ==> final(self).spec_payloads() == old(self).spec_payloads().push(
                old(self).spec_buf(),
            ) && final(self).spec_buf().len() == 0 && final(self).written() == old(
                self,
            ).written(),
            (r is Err) == !encode_fits(old(self).spec_buf()),
            r matches Err(e) ==> e == Error::InvalidInput && *final(self) == *old(self),
    {
        let ghost bs = self.payloads@;
        let ghost t0 = self.dst@;
        let ghost p = self.buf@;
        match encode_block(&self.buf) {
            Err(e) => Err(e),
            Ok(mut out) => {
                let ghost enc = out@;
                self.dst.append(&mut out);
                proof {
                    self.payloads@ = bs.push(p);
                }
                self.buf = Vec::new();
                proof {
                    lemma_cover_extend(t0, enc, 0, t0.len() as int, bs);
                    assert(self.dst@ =~= t0 + enc);
                    assert(self.dst@.subrange(t0.len() as int, t0.len() + enc.len() as int) =~= enc);
                    lemma_cover_snoc(self.dst@, 0, t0.len() as int, bs, p);
                    assert(bs.push(p).flatten() =~= bs.flatten() + p) by {
                        Seq::lemma_flatten_push(bs, p);
                    }
                    assert(self.written() =~= old(self).written());
                }
                Ok(())
            },
        }
    }

    /// Accepts bytes, encoding a block whenever the internal buffer
    /// reaches the payload cap.
    pub fn write(&mut self, data: &Vec<u8>) -> (r: Result<(), Error>)
        requires
            old(self).wf(),
            !old(self).spec_done(),
        ensures
            final(self).wf(),
            !final(self).spec_done(),
            r matches Ok(u) ==> final(self).written() == old(self).written() + data@,
            (r is Err) == !pending_chunks_fit(old(self).spec_buf() + data@),
            r matches Err(e) ==> e == Error::InvalidInput,
    {
        let ghost all = old(self).spec_buf() + data@;
        let ghost b0len = old(self).spec_buf().len() as int;
        let ghost mm = MAX_BLOCK_PAYLOAD as int;
        let mut i: usize = 0;
        let ghost mut q: int = 0;
        while i < data.len()
            invariant
                0 <= i <= data.len(),
                self.wf(),
                !self.spec_done(),
                all == old(self).spec_buf() + data@,
                b0len == old(self).spec_buf().len(),
                mm == MAX_BLOCK_PAYLOAD,
                q >= 0,
                q * mm + self.spec_buf().len() == b0len + i,
                self.spec_buf() == all.subrange(q * mm, b0len + i),
                forall|k: int|
                    0 <= k < q ==> encode_fits(#[trigger] all.subrange(k * mm, (k + 1) * mm)),
                self.written() == old(self).written() + data@.take(i as int),
            decreases data.len() - i,
        {
            if self.buf.len() == MAX_BLOCK_PAYLOAD {
                let ghost w0 = self.written();
                match self.flush_block() {
                    Ok(_) => {},
                    Err(e) => {
                        proof {
                            assert(self.spec_buf() =~= all.subrange(q * mm, (q + 1) * mm));
                            assert((q + 1) * mm == b0len + i);
                            assert((q + 1) * mm < all.len());
                            assert(!encode_fits(all.subrange(q * mm, (q + 1) * mm)));
                            assert(!pending_chunks_fit(all));
                        }
                        return Err(e);
                    },
                }
                proof {
                    assert(self.written() == w0);
                    assert(encode_fits(all.subrange(q * mm, (q + 1) * mm)));
                    q = q + 1;
                    assert(self.spec_buf() =~= all.subrange(q * mm, b0len + i));
                }
            }
            let ghost w1 = self.written();
            self.buf.push(data[i]);
            i += 1;
            proof {
                assert(self.written() =~= w1 + seq![data@[i - 1]]);
                assert(w1 + seq![data@[i - 1]] =~= old(self).written() + data@.take(i as int));
                assert(all[b0len + i - 1] == data@[i - 1]);
                assert(self.spec_buf() =~= all.subrange(q * mm, b0len + i));
            }
        }
        proof {
            assert(data@.take(data@.len() as int) =~= data@);
            assert forall|k: int| 0 <= k && (k + 1) * mm < all.len() implies encode_fits(
                #[trigger] all.subrange(k * mm, (k + 1) * mm),
            ) by {
                assert(all.len() == q * mm + self.spec_buf().len());
                assert(self.spec_buf().len() <= mm);
                if k >= q {
                    assert((k + 1) * mm >= (q + 1) * mm) by (nonlinear_arith)
                        requires
                            k >= q,
                            mm > 0,
                    ;
                    assert(false);
                }
            }
        }
        Ok(())
    }

    /// Encodes any pending bytes so that the output holds every accepted
    /// byte; the stream remains unterminated.
    pub fn flush(&mut self) -> (r: Result<(), Error>)
        requires
            old(self).wf(),
            !old(self).spec_done(),
        ensures
            final(self).wf(),
            !final(self).spec_done(),
            r matches Ok(u) ==> {
                &&& final(self).spec_buf().len() == 0
                &&& final(self).spec_payloads().flatten() == old(self).written()
                &&& spec_stream(final(self).spec_dst(), 0, false) == Ok::<Seq<Seq<u8>>, Error>(
                    final(self).spec_payloads(),
                )
                &&& spec_stream(final(self).spec_dst(), 0, true) == Err::<Seq<Seq<u8>>, Error>(
                    Error::MissingEofMarker,
                )
            },
            (r is Err) == (old(self).spec_buf().len() > 0 && !encode_fits(old(self).spec_buf())),
            r matches Err(e) ==> e == Error::InvalidInput,
    {
        if self.buf.len() > 0 {
            match self.flush_block() {
                Ok(_) => {},
                Err(e) => {
                    return Err(e);
                },
            }
        }
        proof {
            assert(self.written() =~= self.spec_payloads().flatten());
            lemma_cover_stream_end(self.spec_dst(), 0, self.spec_dst().len() as int,
                self.spec_payloads());
        }
        Ok(())
    }

    /// Encodes any pending bytes and appends the terminator block exactly
    /// once; after this the output is a complete, self-terminating
    /// stream whose blocks decode to every accepted byte, in order.
    pub fn finish(&mut self) -> (r: Result<(), Error>)
        requires
            old(self).wf(),
            !old(self).spec_done(),
        ensures
            final(self).wf(),
            r matches Ok(u) ==> {
                &&& final(self).spec_done()
                &&& final(self).spec_payloads().flatten() == old(self).written()
                &&& spec_stream(final(self).spec_dst(), 0, true) == Ok::<Seq<Seq<u8>>, Error>(
                    final(self).spec_payloads(),
                )
                &&& spec_stream(final(self).spec_dst(), 0, false) == Ok::<Seq<Seq<u8>>, Error>(
                    final(self).spec_payloads(),
                )
            },
            (r is Err) == (old(self).spec_buf().len() > 0 && !encode_fits(old(self).spec_buf())),
            r matches Err(e) ==> e == Error::InvalidInput && !final(self).spec_done(),
    {
        if self.buf.len() > 0 {
            match self.flush_block() {
                Ok(_) => {},
                Err(e) => {
                    return Err(e);
                },
            }
        }
        proof {
            assert(self.written() =~= self.spec_payloads().flatten());
        }
        let ghost t0 = self.dst@;
        let ghost bs = self.payloads@;
        let mut marker = eof_marker_bytes();
        self.dst.append(&mut marker);
        self.done = true;
        proof {
            lemma_cover_extend(t0, eof_marker(), 0, t0.len() as int, bs);
            assert(self.dst@ =~= t0 + eof_marker());
            assert(self.dst@.subrange(t0.len() as int, t0.len() as int + 28) =~= eof_marker());
            assert(is_eof_at(self.dst@, t0.len() as int));
            lemma_cover_stream_eof(self.dst@, 0, t0.len() as int, bs, true);
            lemma_cover_stream_eof(self.dst@, 0, t0.len() as int, bs, false);
        }
        Ok(())
    }

    /// The encoded output so far.
    pub fn as_bytes(&self) -> (r: &Vec<u8>)
        ensures
            r@ == self.spec_dst(),
    {
        &self.dst
    }

    /// Consumes the writer and hands back the encoded output.
    pub fn into_bytes(self) -> (r: Vec<u8>)
        ensures
            r@ == self.spec_dst(),
    {
        self.dst
    }
}

/// A record writer over a block-compressed sink: frames each record with
/// a four-byte little-endian length and hands the frame to the engine.
pub struct Writer<W> {
    inner: W,
    buf: Vec<u8>,
}

impl<W> Writer<W> {
    /// The underlying block writer.
    pub closed spec fn spec_inner(self) -> W {
        self.inner
    }

    /// The scratch buffer records are framed into.
    pub closed spec fn spec_buf(self) -> Seq<u8> {
        self.buf@
    }

    /// Returns a reference to the underlying writer.
    pub fn get_ref(&self) -> (r: &W)
        ensures
            *r == self.spec_inner(),
    {
        &self.inner
    }

    /// Returns a mutable reference to the underlying writer.
    pub fn get_mut(&mut self) -> (r: &mut W)
        ensures
            *r == old(self).spec_inner(),
            final(self).spec_inner() == *final(r),
            final(self).spec_buf() == old(self).spec_buf(),
    {
        &mut self.inner
    }

    /// Returns the underlying writer.
    pub fn into_inner(self) -> (r: W)
        ensures
            r == self.spec_inner(),
    {
        self.inner
    }

    /// Wraps an existing sink.
    pub fn from_inner(inner: W) -> (r: Self)
        ensures
            r.spec_inner() == inner,
            r.spec_buf() == Seq::<u8>::empty(),
    {
        Writer { inner, buf: Vec::new() }
    }
}

impl Writer<BlockWriter> {
    /// Creates a record writer over a fresh block-compressed sink.
    pub fn new() -> (r: Self)
        ensures
            r.spec_inner().wf(),
            !r.spec_inner().spec_done(),
            r.spec_inner().written() == Seq::<u8>::empty(),
    {
        Writer { inner: BlockWriter::new(), buf: Vec::new() }
    }

    /// Writes one record as a length-prefixed frame.
    ///
    /// Fails with `InvalidInput` if the record is too large for its
    /// four-byte length field (or for one encoded block's worth of
    /// compression working space).
    pub fn write_record(&mut self, record: &Vec<u8>) -> (r: Result<(), Error>)
        requires
            old(self).spec_inner().wf(),
            !old(self).spec_inner().spec_done(),
        ensures
            final(self).spec_inner().wf(),
            !final(self).spec_inner().spec_done(),
            r matches Ok(u) ==> final(self).spec_inner().written() == old(
                self,
            ).spec_inner().written() + u32_to_le(record@.len() as u32) + record@,
            (r is Err) == (record@.len() > 0xFFFF_FFFF || !pending_chunks_fit(
                old(self).spec_inner().spec_buf() + u32_to_le(record@.len() as u32) + record@,
            )),
            r matches Err(e) ==> e == Error::InvalidInput,
    {
        if record.len() > 0xFFFF_FFFFusize {
            return Err(Error::InvalidInput);
        }
        let mut frame: Vec<u8> = Vec::new();
        push_u32_le(&mut frame, record.len() as u32);
        let mut i: usize = 0;
        while i < record.len()
            invariant
                0 <= i <= record.len(),
                frame@ == u32_to_le(record@.len() as u32) + record@.take(i as int),
            decreases record.len() - i,
        {
            frame.push(record[i]);
            proof {
                assert(frame@ =~= u32_to_le(record@.len() as u32) + record@.take(i + 1));
            }
            i += 1;
        }
        proof {
            assert(record@.take(record@.len() as int) =~= record@);
        }
        let res = self.inner.write(&frame);
        proof {
            assert(old(self).spec_inner().spec_buf() + frame@ =~= old(
                self,
            ).spec_inner().spec_buf() + u32_to_le(record@.len() as u32) + record@);
            if res is Ok {
                assert(old(self).spec_inner().written() + frame@ =~= old(
                    self,
                ).spec_inner().written() + u32_to_le(record@.len() as u32) + record@);
            }
        }
        res
    }
}

} // verus!
