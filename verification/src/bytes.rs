//! Big-endian byte encodings and an append-only byte writer with ISOBMFF
//! box framing.

use vstd::prelude::*;

verus! {

/// Big-endian encoding of a 16-bit value.
pub open spec fn be16(v: u16) -> Seq<u8> {
    seq![(v >> 8) as u8, v as u8]
}

/// Big-endian encoding of the low 24 bits of `v`.
pub open spec fn be24(v: u32) -> Seq<u8> {
    seq![(v >> 16) as u8, (v >> 8) as u8, v as u8]
}

/// Big-endian encoding of a 32-bit value.
pub open spec fn be32(v: u32) -> Seq<u8> {
    seq![(v >> 24) as u8, (v >> 16) as u8, (v >> 8) as u8, v as u8]
}

/// `n` zero bytes.
pub open spec fn zeros(n: nat) -> Seq<u8> {
    Seq::new(n, |i: int| 0u8)
}

/// An ISOBMFF box: 32-bit size (header included), four-character type, content.
/// The size field holds the true length whenever it fits in 32 bits.
#[verifier::opaque]
pub open spec fn mp4_box(fourcc: u32, content: Seq<u8>) -> Seq<u8> {
    be32((content.len() + 8) as u32) + be32(fourcc) + content
}

pub broadcast proof fn lemma_mp4_box_len(fourcc: u32, content: Seq<u8>)
    ensures
        #[trigger] mp4_box(fourcc, content).len() == content.len() + 8,
{
    reveal(mp4_box);
}

/// An ISOBMFF full box: a box whose content starts with version and flags.
pub open spec fn full_box(fourcc: u32, version: u8, flags: u32, content: Seq<u8>) -> Seq<u8> {
    mp4_box(fourcc, seq![version] + be24(flags) + content)
}

/// Concatenation of the big-endian encodings of `vals`, in order.
pub open spec fn be32_all(vals: Seq<u32>) -> Seq<u8>
    decreases vals.len(),
{
    if vals.len() == 0 {
        Seq::empty()
    } else {
        be32_all(vals.drop_last()) + be32(vals.last())
    }
}

pub proof fn lemma_be32_all_len(vals: Seq<u32>)
    ensures
        be32_all(vals).len() == 4 * vals.len(),
    decreases vals.len(),
{
    if vals.len() > 0 {
        lemma_be32_all_len(vals.drop_last());
    }
}

/// Append-only byte buffer.
pub struct Writer {
    buf: Vec<u8>,
}

impl View for Writer {
    type V = Seq<u8>;

    closed spec fn view(&self) -> Seq<u8> {
        self.buf@
    }
}

impl Writer {
    pub fn new() -> (w: Writer)
        ensures
            w@ == Seq::<u8>::empty(),
    {
        Writer { buf: Vec::new() }
    }

    pub fn len(&self) -> (n: usize)
        ensures
            n == self@.len(),
    {
        self.buf.len()
    }

    /// Hands out the bytes written so far.
    pub fn into_bytes(self) -> (v: Vec<u8>)
        ensures
            v@ == self@,
    {
        self.buf
    }

    pub fn u8(&mut self, v: u8)
        ensures
            final(self)@ == old(self)@ + seq![v],
    {
        self.buf.push(v);
        assert(self.buf@ =~= old(self)@ + seq![v]);
    }

    pub fn u16(&mut self, v: u16)
        ensures
            final(self)@ == old(self)@ + be16(v),
    {
        self.buf.push((v >> 8) as u8);
        self.buf.push(v as u8);
        assert(self.buf@ =~= old(self)@ + be16(v));
    }

    pub fn u24(&mut self, v: u32)
        ensures
            final(self)@ == old(self)@ + be24(v),
    {
        self.buf.push((v >> 16) as u8);
        self.buf.push((v >> 8) as u8);
        self.buf.push(v as u8);
        assert(self.buf@ =~= old(self)@ + be24(v));
    }

    pub fn u32(&mut self, v: u32)
        ensures
            final(self)@ == old(self)@ + be32(v),
    {
        self.buf.push((v >> 24) as u8);
        self.buf.push((v >> 16) as u8);
        self.buf.push((v >> 8) as u8);
        self.buf.push(v as u8);
        assert(self.buf@ =~= old(self)@ + be32(v));
    }

    pub fn bytes(&mut self, b: &[u8])
        ensures
            final(self)@ == old(self)@ + b@,
    {
        let n = b.len();
        let mut i: usize = 0;
        while i < n
            invariant
                n == b@.len(),
                i <= n,
                self@ == old(self)@ + b@.take(i as int),
            decreases n - i,
        {
            self.buf.push(b[i]);
            assert(b@.take(i + 1) =~= b@.take(i as int).push(b@[i as int]));
            assert(self@ =~= old(self)@ + b@.take(i + 1));
            i = i + 1;
        }
        assert(b@.take(n as int) =~= b@);
    }

    pub fn zeros(&mut self, n: usize)
        ensures
            final(self)@ == old(self)@ + zeros(n as nat),
    {
        let mut i: usize = 0;
        while i < n
            invariant
                i <= n,
                self@ == old(self)@ + zeros(i as nat),
            decreases n - i,
        {
            self.buf.push(0);
            assert(self@ =~= old(self)@ + zeros((i + 1) as nat));
            i = i + 1;
        }
    }

    /// Opens a box: writes a placeholder size and the type, and returns where
    /// the box starts, for `end_box`.
    pub fn begin_box(&mut self, fourcc: u32) -> (start: usize)
        ensures
            start == old(self)@.len(),
            final(self)@ == old(self)@ + be32(0) + be32(fourcc),
    {
        let start = self.buf.len();
        self.u32(0);
        self.u32(fourcc);
        start
    }

    /// Opens a full box: a box header followed by version and flags.
    pub fn begin_full_box(&mut self, fourcc: u32, version: u8, flags: u32) -> (start: usize)
        ensures
            start == old(self)@.len(),
            final(self)@ == old(self)@ + be32(0) + be32(fourcc) + seq![version] + be24(flags),
    {
        let start = self.begin_box(fourcc);
        self.u8(version);
        self.u24(flags);
        start
    }

    /// Closes the box opened at `start` (after `prefix`): patches its size
    /// field with the number of bytes written since `start`.
    pub fn end_box(
        &mut self,
        start: usize,
        Ghost(prefix): Ghost<Seq<u8>>,
        Ghost(fourcc): Ghost<u32>,
        Ghost(content): Ghost<Seq<u8>>,
    )
        requires
            start == prefix.len(),
            old(self)@ == prefix + be32(0) + be32(fourcc) + content,
        ensures
            final(self)@ == prefix + mp4_box(fourcc, content),
    {
        let size = (self.buf.len() - start) as u32;
        self.buf.set(start, (size >> 24) as u8);
        self.buf.set(start + 1, (size >> 16) as u8);
        self.buf.set(start + 2, (size >> 8) as u8);
        self.buf.set(start + 3, size as u8);
        assert(self@ =~= prefix + mp4_box(fourcc, content)) by {
            reveal(mp4_box);
        }
    }

    /// Closes a full box opened at `start` (after `prefix`).
    pub fn end_full_box(
        &mut self,
        start: usize,
        Ghost(prefix): Ghost<Seq<u8>>,
        Ghost(fourcc): Ghost<u32>,
        Ghost(version): Ghost<u8>,
        Ghost(flags): Ghost<u32>,
        Ghost(body): Ghost<Seq<u8>>,
    )
        requires
            start == prefix.len(),
            old(self)@ == prefix + be32(0) + be32(fourcc) + seq![version] + be24(flags) + body,
        ensures
            final(self)@ == prefix + full_box(fourcc, version, flags, body),
    {
        assert(old(self)@ =~= prefix + be32(0) + be32(fourcc) + (seq![version] + be24(flags) + body));
        self.end_box(start, Ghost(prefix), Ghost(fourcc), Ghost(seq![version] + be24(flags) + body));
    }
}

} // verus!
