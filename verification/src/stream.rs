//! The sequential read engine: a buffered cursor over the decompressed
//! contents of a block-compressed stream.

use vstd::prelude::*;

use crate::block::{decode_block, is_eof_at, is_eof_block, spec_decode, Block};
use crate::error::Error;
use crate::vpos::{packed, VirtualPosition, MAX_COMPRESSED_OFFSET};

verus! {

/// What decoding a whole stream from `pos` yields: the payload of every
/// block before the terminator (or before the end of input, which under
/// `strict` is an error), or the first error the input forces.
pub open spec fn spec_stream(s: Seq<u8>, pos: int, strict: bool) -> Result<Seq<Seq<u8>>, Error>
    decreases s.len() - pos,
{
    if pos < 0 || pos >= s.len() {
        if strict {
            Err(Error::MissingEofMarker)
        } else {
            Ok(Seq::empty())
        }
    } else if is_eof_at(s, pos) {
        Ok(Seq::empty())
    } else {
        match spec_decode(s, pos) {
            Err(e) => Err(e),
            Ok(dn) => {
                if dn.1 < 20 || pos + dn.1 > s.len() {
                    Err(Error::InvalidBlockSize)
                } else {
                    match spec_stream(s, pos + dn.1, strict) {
                        Err(e) => Err(e),
                        Ok(rest) => Ok(seq![dn.0] + rest),
                    }
                }
            },
        }
    }
}

/// The next non-empty payload at or after `pos`, with the stream offset of
/// its block and the offset just past it; `None` at the terminator or at a
/// lenient end of input.
pub open spec fn spec_next(s: Seq<u8>, pos: int, strict: bool) -> Result<
    Option<(Seq<u8>, int, int)>,
    Error,
>
    decreases s.len() - pos,
{
    if pos < 0 || pos >= s.len() {
        if strict {
            Err(Error::MissingEofMarker)
        } else {
            Ok(None)
        }
    } else if is_eof_at(s, pos) {
        Ok(None)
    } else {
        match spec_decode(s, pos) {
            Err(e) => Err(e),
            Ok(dn) => {
                if dn.1 < 20 || pos + dn.1 > s.len() {
                    Err(Error::InvalidBlockSize)
                } else if dn.0.len() > 0 {
                    Ok(Some((dn.0, pos, pos + dn.1)))
                } else {
                    spec_next(s, pos + dn.1, strict)
                }
            },
        }
    }
}

/// Decodes every block of `src`, returning the payloads in stream order.
///
/// Under `strict`, a stream that ends without the terminator block is an
/// error; otherwise the end of input is accepted as a clean end.
pub fn decode_all(src: &Vec<u8>, strict: bool) -> (r: Result<Vec<Vec<u8>>, Error>)
    ensures
        match spec_stream(src@, 0, strict) {
            Ok(bs) => r matches Ok(v) && v@.len() == bs.len() && (forall|i: int|
                0 <= i < bs.len() ==> #[trigger] v@[i]@ == bs[i]),
            Err(e) => r == Err::<Vec<Vec<u8>>, Error>(e),
        },
{
    let mut out: Vec<Vec<u8>> = Vec::new();
    let mut pos: usize = 0;
    loop
        invariant
            pos <= src.len(),
            match spec_stream(src@, pos as int, strict) {
                Ok(rest) => spec_stream(src@, 0, strict) matches Ok(bs) && bs == out@.map_values(
                    |v: Vec<u8>| v@,
                ) + rest,
                Err(e) => spec_stream(src@, 0, strict) == Err::<Seq<Seq<u8>>, Error>(e),
            },
        decreases src.len() - pos,
    {
        if pos >= src.len() {
            if strict {
                return Err(Error::MissingEofMarker);
            } else {
                proof {
                    assert(out@.map_values(|v: Vec<u8>| v@) + Seq::<Seq<u8>>::empty()
                        =~= out@.map_values(|v: Vec<u8>| v@));
                }
                return Ok(out);
            }
        }
        if is_eof_block(src, pos) {
            proof {
                assert(out@.map_values(|v: Vec<u8>| v@) + Seq::<Seq<u8>>::empty()
                    =~= out@.map_values(|v: Vec<u8>| v@));
            }
            return Ok(out);
        }
        match decode_block(src, pos) {
            Err(e) => {
                return Err(e);
            },
            Ok((data, n)) => {
                let ghost prev = out@.map_values(|v: Vec<u8>| v@);
                let ghost rest0 = spec_stream(src@, pos as int, strict);
                out.push(data);
                pos = pos + n;
                proof {
                    let m = out@.map_values(|v: Vec<u8>| v@);
                    assert(m =~= prev + seq![out@.last()@]);
                    match spec_stream(src@, pos as int, strict) {
                        Ok(rest) => {
                            assert(rest0 matches Ok(r0) && r0 == seq![out@.last()@] + rest);
                            assert(prev + (seq![out@.last()@] + rest) =~= m + rest);
                        },
                        Err(_) => {},
                    }
                }
            },
        }
    }
}

/// The sequential engine's read side: decodes one block at a time from an
/// in-memory compressed stream and exposes a buffered cursor over the
/// decompressed bytes.
pub struct BlockReader {
    src: Vec<u8>,
    pos: usize,
    block: Block,
    strict: bool,
}

impl BlockReader {
    /// The reader's structural invariant.
    pub open spec fn wf(self) -> bool {
        &&& self.spec_pos() <= self.spec_src().len()
        &&& self.spec_src().len() <= MAX_COMPRESSED_OFFSET
        &&& self.spec_block().wf()
    }

    /// The underlying compressed bytes.
    pub closed spec fn spec_src(self) -> Seq<u8> {
        self.src@
    }

    /// The stream offset of the first not-yet-decoded byte.
    pub closed spec fn spec_pos(self) -> int {
        self.pos as int
    }

    /// The current block.
    pub closed spec fn spec_block(self) -> Block {
        self.block
    }

    /// Whether a missing terminator is an error.
    pub closed spec fn spec_strict(self) -> bool {
        self.strict
    }

    /// How many bytes of the current block are still unread.
    pub open spec fn block_remaining(self) -> int {
        self.spec_block().spec_data().len() - self.spec_block().spec_cursor()
    }

    /// A reader over `src`, positioned at the start.
    pub fn new(src: Vec<u8>, strict: bool) -> (r: Self)
        requires
            src.len() <= MAX_COMPRESSED_OFFSET,
        ensures
            r.wf(),
            r.spec_src() == src@,
            r.spec_pos() == 0,
            r.spec_strict() == strict,
            r.block_remaining() == 0,
            r.spec_block().spec_position() == 0,
            r.spec_block().spec_cursor() == 0,
    {
        BlockReader { src, pos: 0, block: Block::new(), strict }
    }

    /// The stream offset of the first not-yet-decoded compressed byte.
    pub fn position(&self) -> (r: u64)
        requires
            self.wf(),
        ensures
            r == self.spec_pos(),
    {
        self.pos as u64
    }

    /// The virtual position of the read cursor.
    pub fn virtual_position(&self) -> (r: VirtualPosition)
        requires
            self.wf(),
        ensures
            r.spec_value() == packed(
                self.spec_block().spec_position(),
                self.spec_block().spec_cursor() as u16,
            ),
    {
        self.block.virtual_position()
    }

    /// Ensures the cursor sits on unread decompressed data, decoding blocks
    /// as needed; returns `Ok(false)` at a clean end of stream.
    ///
    /// Blocks with an empty payload are read through transparently, as in
    /// the write side they never carry data.
    pub fn fill(&mut self) -> (r: Result<bool, Error>)
        requires
            old(self).wf(),
        ensures
            final(self).wf(),
            final(self).spec_src() == old(self).spec_src(),
            final(self).spec_strict() == old(self).spec_strict(),
            old(self).block_remaining() > 0 ==> r == Ok::<bool, Error>(true) && *final(self)
                == *old(self),
            old(self).block_remaining() == 0 ==> match spec_next(
                old(self).spec_src(),
                old(self).spec_pos(),
                old(self).spec_strict(),
            ) {
                Ok(opt) => match opt {
                    Some(t) => {
                        &&& r == Ok::<bool, Error>(true)
                        &&& final(self).spec_block().spec_data() == t.0
                        &&& final(self).spec_block().spec_position() == t.1
                        &&& final(self).spec_block().spec_cursor() == 0
                        &&& final(self).spec_pos() == t.2
                        &&& final(self).block_remaining() == t.0.len()
                    },
                    None => r == Ok::<bool, Error>(false) && final(self).block_remaining() == 0,
                },
                Err(e) => r == Err::<bool, Error>(e),
            },
    {
        if self.block.remaining() > 0 {
            return Ok(true);
        }
        loop
            invariant
                old(self).block_remaining() == 0,
                self.wf(),
                self.spec_src() == old(self).spec_src(),
                self.spec_strict() == old(self).spec_strict(),
                self.block_remaining() == 0,
                spec_next(self.spec_src(), self.spec_pos(), self.spec_strict()) == spec_next(
                    old(self).spec_src(),
                    old(self).spec_pos(),
                    old(self).spec_strict(),
                ),
            decreases self.spec_src().len() - self.spec_pos(),
        {
            if self.pos >= self.src.len() {
                if self.strict {
                    return Err(Error::MissingEofMarker);
                } else {
                    return Ok(false);
                }
            }
            if is_eof_block(&self.src, self.pos) {
                return Ok(false);
            }
            match decode_block(&self.src, self.pos) {
                Err(e) => {
                    return Err(e);
                },
                Ok((data, n)) => {
                    let bp = self.pos as u64;
                    self.pos = self.pos + n;
                    let mut b = Block::from_decoded(data, n as u64);
                    b.set_position(bp);
                    self.block = b;
                    if self.block.remaining() > 0 {
                        return Ok(true);
                    }
                },
            }
        }
    }

    /// How many bytes of the current block are still unread.
    pub fn remaining_in_block(&self) -> (r: usize)
        requires
            self.wf(),
        ensures
            r == self.block_remaining(),
    {
        self.block.remaining()
    }

    /// Copies the next `n` unread bytes of the current block and advances
    /// the cursor past them.
    pub fn take(&mut self, n: usize) -> (r: Vec<u8>)
        requires
            old(self).wf(),
            n <= old(self).block_remaining(),
        ensures
            final(self).wf(),
            final(self).spec_src() == old(self).spec_src(),
            final(self).spec_strict() == old(self).spec_strict(),
            final(self).spec_pos() == old(self).spec_pos(),
            final(self).spec_block().spec_data() == old(self).spec_block().spec_data(),
            final(self).spec_block().spec_position() == old(self).spec_block().spec_position(),
            final(self).spec_block().spec_cursor() == old(self).spec_block().spec_cursor() + n,
            r@ == old(self).spec_block().spec_data().subrange(
                old(self).spec_block().spec_cursor() as int,
                old(self).spec_block().spec_cursor() + n,
            ),
    {
        let mut out: Vec<u8> = Vec::new();
        let ghost c0 = self.block.spec_cursor() as int;
        let mut i: usize = 0;
        while i < n
            invariant
                0 <= i <= n,
                self == old(self),
                self.wf(),
                n <= self.block_remaining(),
                c0 == self.block.spec_cursor(),
                out@ == self.block.spec_data().subrange(c0, c0 + i),
            decreases n - i,
        {
            out.push(self.block.peek_at(i));
            proof {
                assert(out@ =~= self.block.spec_data().subrange(c0, c0 + i + 1));
            }
            i += 1;
        }
        self.block.consume(n);
        out
    }

    /// Reads up to `n` bytes: what the current block still holds, after
    /// decoding the next block if the cursor sat at a block boundary. An
    /// empty result means a clean end of stream.
    pub fn read(&mut self, n: usize) -> (r: Result<Vec<u8>, Error>)
        requires
            old(self).wf(),
        ensures
            final(self).wf(),
            final(self).spec_src() == old(self).spec_src(),
            final(self).spec_strict() == old(self).spec_strict(),
            r matches Ok(v) ==> v@.len() <= n,
            old(self).block_remaining() > 0 ==> (r matches Ok(v) && {
                let c = old(self).spec_block().spec_cursor() as int;
                let k = if n <= old(self).block_remaining() {
                    n as int
                } else {
                    old(self).block_remaining()
                };
                &&& v@ == old(self).spec_block().spec_data().subrange(c, c + k)
                &&& final(self).spec_block().spec_cursor() == c + k
                &&& final(self).spec_block().spec_data() == old(self).spec_block().spec_data()
                &&& final(self).spec_pos() == old(self).spec_pos()
            }),
            old(self).block_remaining() == 0 ==> match spec_next(
                old(self).spec_src(),
                old(self).spec_pos(),
                old(self).spec_strict(),
            ) {
                Ok(opt) => match opt {
                    Some(t) => r matches Ok(v) && {
                        let k = if n <= t.0.len() {
                            n as int
                        } else {
                            t.0.len() as int
                        };
                        &&& v@ == t.0.subrange(0, k)
                        &&& final(self).spec_block().spec_data() == t.0
                        &&& final(self).spec_block().spec_cursor() == k
                        &&& final(self).spec_pos() == t.2
                    },
                    None => r matches Ok(v) && v@.len() == 0,
                },
                Err(e) => r == Err::<Vec<u8>, Error>(e),
            },
    {
        match self.fill() {
            Err(e) => Err(e),
            Ok(false) => Ok(Vec::new()),
            Ok(true) => {
                let rem = self.block.remaining();
                let k = if n <= rem {
                    n
                } else {
                    rem
                };
                Ok(self.take(k))
            },
        }
    }

    /// Advances the cursor by `amt` within the current block.
    pub fn consume(&mut self, amt: usize)
        requires
            old(self).wf(),
            amt <= old(self).block_remaining(),
        ensures
            final(self).wf(),
            final(self).spec_src() == old(self).spec_src(),
            final(self).spec_strict() == old(self).spec_strict(),
            final(self).spec_pos() == old(self).spec_pos(),
            final(self).spec_block().spec_data() == old(self).spec_block().spec_data(),
            final(self).spec_block().spec_position() == old(self).spec_block().spec_position(),
            final(self).spec_block().spec_cursor() == old(self).spec_block().spec_cursor() + amt,
    {
        self.block.consume(amt);
    }

    /// Seeks to a virtual position: decodes the block at its compressed
    /// offset and places the cursor at its in-block offset.
    pub fn seek(&mut self, target: VirtualPosition) -> (r: Result<(), Error>)
        requires
            old(self).wf(),
        ensures
            final(self).wf(),
            final(self).spec_src() == old(self).spec_src(),
            final(self).spec_strict() == old(self).spec_strict(),
            match spec_decode(old(self).spec_src(), target.spec_compressed_offset() as int) {
                Err(e) => r == Err::<(), Error>(e),
                Ok(dn) => {
                    if target.spec_in_block_offset() > dn.0.len() {
                        r == Err::<(), Error>(Error::SeekOutOfRange)
                    } else {
                        &&& r == Ok::<(), Error>(())
                        &&& final(self).spec_block().spec_data() == dn.0
                        &&& final(self).spec_block().spec_position()
                            == target.spec_compressed_offset()
                        &&& final(self).spec_block().spec_cursor()
                            == target.spec_in_block_offset()
                        &&& final(self).spec_pos() == target.spec_compressed_offset() + dn.1
                    }
                },
            },
    {
        let coffset = target.compressed_offset();
        if coffset > self.src.len() as u64 {
            return Err(Error::UnexpectedEof);
        }
        let cpos = coffset as usize;
        match decode_block(&self.src, cpos) {
            Err(e) => Err(e),
            Ok((data, n)) => {
                let uoffset = target.in_block_offset() as usize;
                if uoffset > data.len() {
                    return Err(Error::SeekOutOfRange);
                }
                let mut b = Block::from_decoded(data, n as u64);
                b.set_position(coffset);
                let _ = b.seek_within(uoffset);
                self.block = b;
                self.pos = cpos + n;
                Ok(())
            },
        }
    }
}

} // verus!
