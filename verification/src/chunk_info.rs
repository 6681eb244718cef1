use vstd::prelude::*;

verus! {

/// The value of a big-endian 16-bit length field.
pub open spec fn spec_u16_be(hi: u8, lo: u8) -> int {
    hi * 256 + lo
}

/// Reads the big-endian 16-bit length prefix that opens every chunk on the wire.
pub fn u16_be(hi: u8, lo: u8) -> (r: u16)
    ensures
        r == spec_u16_be(hi, lo),
{
    (hi as u16) * 256 + (lo as u16)
}

/// Descriptor of one framed chunk inside a direction's cumulative buffer.
///
/// `start..end` is the chunk's whole range, the 2-byte length prefix included;
/// the end is the declared end, fixed when the prefix is parsed, even when the
/// body bytes have not all arrived yet. The two flags only serve the
/// packet-to-chunk indexing query: `incomplete` records that the declared end
/// was beyond the bytes available, `continuation` that the chunk carries the
/// continuation of a message begun in an earlier chunk.
#[derive(Clone, Copy, Debug, PartialEq, Eq, Structural)]
pub struct ChunkInfo {
    pub start: usize,
    pub end: usize,
    pub continuation: bool,
    pub incomplete: bool,
}

impl ChunkInfo {
    pub fn new(start: usize, end: usize, continuation: bool, incomplete: bool) -> (r: ChunkInfo)
        ensures
            r == (ChunkInfo { start, end, continuation, incomplete }),
    {
        ChunkInfo { start, end, continuation, incomplete }
    }

    /// The chunk's whole range, length prefix included.
    pub fn range(&self) -> (r: (usize, usize))
        ensures
            r == (self.start, self.end),
    {
        (self.start, self.end)
    }

    /// The chunk's body range: the bytes after the 2-byte length prefix.
    pub fn body(&self) -> (r: (usize, usize))
        requires
            self.start + 2 <= self.end,
        ensures
            r.0 == self.start + 2,
            r.1 == self.end,
    {
        (self.start + 2, self.end)
    }

    pub fn continuation(&self) -> (r: bool)
        ensures
            r == self.continuation,
    {
        self.continuation
    }

    pub fn incomplete(&self) -> (r: bool)
        ensures
            r == self.incomplete,
    {
        self.incomplete
    }
}

} // verus!
