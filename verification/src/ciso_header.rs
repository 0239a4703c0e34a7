//! The fixed 24-byte header that opens every CISO file.

use vstd::prelude::*;
use crate::bytes::{
    le_u32_at, le_u64_at, lemma_le_u32_bytes, lemma_le_u64_bytes, lemma_u32_le_round_trip,
    lemma_u64_le_round_trip, push_u32_le, push_u64_le, read_u32_le, read_u64_le, u32_le, u64_le,
};

verus! {

/// Length of the encoded header in bytes.
pub const HEADER_SIZE: usize = 24;

/// Size of an uncompressed block in a file that this library writes.
pub const BLOCK_SIZE: u32 = 0x800;

/// The largest `align` for which this library reads a file.
pub const MAX_ALIGN: u8 = 63;

/// The header of a CISO file.  All integers are stored little-endian.
#[derive(Debug, Clone, Copy, PartialEq, Eq)]
pub struct CisoHeader {
    /// `CISO` in ASCII.
    pub magic: [u8; 4],
    /// Length of this header, `0x18`.
    pub header_size: u32,
    /// Length of the uncompressed image.
    pub total_bytes: u64,
    /// Length of one uncompressed block, `0x800`.
    pub block_size: u32,
    /// Format version, `1`.
    pub ver: u8,
    /// Left shift that turns a stored offset into a file offset.
    pub align: u8,
    /// Reserved, zero.
    pub rsv_06: [u8; 2],
}

/// Why a header could not be read.
#[derive(Debug, Clone, Copy, PartialEq, Eq)]
pub enum HeaderError {
    /// Fewer than 24 bytes were available.
    MalformedHeader,
}

impl CisoHeader {
    /// The 24 bytes that encode this header.
    pub open spec fn to_bytes(self) -> Seq<u8> {
        self.magic@ + u32_le(self.header_size) + u64_le(self.total_bytes) + u32_le(self.block_size)
            + seq![self.ver, self.align] + self.rsv_06@
    }

    /// The header that the first 24 bytes of `b` encode.
    pub open spec fn from_bytes(b: Seq<u8>) -> CisoHeader {
        CisoHeader {
            magic: [b[0], b[1], b[2], b[3]],
            header_size: le_u32_at(b, 4) as u32,
            total_bytes: le_u64_at(b, 8) as u64,
            block_size: le_u32_at(b, 16) as u32,
            ver: b[20],
            align: b[21],
            rsv_06: [b[22], b[23]],
        }
    }

    /// Whether this is the header that `new` makes for an image of `total_bytes` bytes.
    pub open spec fn is_canonical(self, total_bytes: u64) -> bool {
        &&& self.magic@ == seq![0x43u8, 0x49u8, 0x53u8, 0x4Fu8]
        &&& self.header_size == 0x18
        &&& self.total_bytes == total_bytes
        &&& self.block_size == BLOCK_SIZE
        &&& self.ver == 1
        &&& self.align == 0
        &&& self.rsv_06@ == seq![0u8, 0u8]
    }

    /// The header that `new` makes for an image of `total_bytes` bytes.
    pub open spec fn canonical(total_bytes: u64) -> CisoHeader {
        CisoHeader {
            magic: [0x43u8, 0x49u8, 0x53u8, 0x4Fu8],
            header_size: 0x18,
            total_bytes,
            block_size: BLOCK_SIZE,
            ver: 1,
            align: 0,
            rsv_06: [0u8, 0u8],
        }
    }

    /// The bytes of the header that `new` makes for an image of `total_bytes` bytes.
    pub open spec fn canonical_bytes(total_bytes: u64) -> Seq<u8> {
        seq![0x43u8, 0x49u8, 0x53u8, 0x4Fu8, 0x18u8, 0u8, 0u8, 0u8] + u64_le(total_bytes)
            + seq![0u8, 0x08u8, 0u8, 0u8, 0x01u8, 0u8, 0u8, 0u8]
    }

    /// Whether this library can read a file with this header: blocks are not empty and
    /// shifted offsets fit the arithmetic.
    pub open spec fn spec_usable(&self) -> bool {
        self.block_size > 0 && self.align <= MAX_ALIGN
    }

    /// Whether this library can read a file with this header: blocks are not empty and
    /// shifted offsets fit the arithmetic.
    #[verifier::when_used_as_spec(spec_usable)]
    pub fn usable(&self) -> (ok: bool)
        ensures
            ok == self.spec_usable(),
    {
        self.block_size > 0 && self.align <= MAX_ALIGN
    }

    /// The header of an image of `total_bytes` bytes.
    pub fn new(total_bytes: u64) -> (h: CisoHeader)
        ensures
            h == CisoHeader::canonical(total_bytes),
            h.is_canonical(total_bytes),
    {
        let h = CisoHeader {
            magic: [0x43, 0x49, 0x53, 0x4F],
            header_size: 0x18,
            total_bytes,
            block_size: BLOCK_SIZE,
            ver: 0x01,
            align: 0,
            rsv_06: [0, 0],
        };
        assert(h.magic@ =~= seq![0x43u8, 0x49u8, 0x53u8, 0x4Fu8]);
        assert(h.rsv_06@ =~= seq![0u8, 0u8]);
        h
    }

    /// Decodes the header that opens `bytes`.
    pub fn read_from(bytes: &[u8]) -> (r: Result<CisoHeader, HeaderError>)
        ensures
            bytes@.len() < HEADER_SIZE ==> r == Err::<CisoHeader, HeaderError>(
                HeaderError::MalformedHeader,
            ),
            bytes@.len() >= HEADER_SIZE ==> r == Ok::<CisoHeader, HeaderError>(
                CisoHeader::from_bytes(bytes@),
            ),
    {
        if bytes.len() < HEADER_SIZE {
            return Err(HeaderError::MalformedHeader);
        }
        let h = CisoHeader {
            magic: [bytes[0], bytes[1], bytes[2], bytes[3]],
            header_size: read_u32_le(bytes, 4),
            total_bytes: read_u64_le(bytes, 8),
            block_size: read_u32_le(bytes, 16),
            ver: bytes[20],
            align: bytes[21],
            rsv_06: [bytes[22], bytes[23]],
        };
        Ok(h)
    }

    /// Appends the 24 bytes of this header to `out`.
    pub fn write_into(&self, out: &mut Vec<u8>)
        ensures
            final(out)@ == old(out)@ + self.to_bytes(),
    {
        out.push(self.magic[0]);
        out.push(self.magic[1]);
        out.push(self.magic[2]);
        out.push(self.magic[3]);
        push_u32_le(out, self.header_size);
        push_u64_le(out, self.total_bytes);
        push_u32_le(out, self.block_size);
        out.push(self.ver);
        out.push(self.align);
        out.push(self.rsv_06[0]);
        out.push(self.rsv_06[1]);
        assert(out@ =~= old(out)@ + self.to_bytes());
    }
}

/// The header that `new` makes is written as `CISO`, `18 00 00 00`, the image's length
/// in eight bytes, `00 08 00 00`, `01`, `00`, `00 00`.
pub proof fn lemma_canonical_bytes(h: CisoHeader, total_bytes: u64)
    requires
        h.is_canonical(total_bytes),
    ensures
        h.to_bytes() == CisoHeader::canonical_bytes(total_bytes),
        h.to_bytes().len() == HEADER_SIZE,
{
    assert(h.to_bytes() =~= CisoHeader::canonical_bytes(total_bytes));
}

/// A file that opens with the bytes of the header that `new` makes is read as having
/// that header.
pub proof fn lemma_canonical_header_is_read(total_bytes: u64, tail: Seq<u8>)
    ensures
        CisoHeader::canonical(total_bytes).is_canonical(total_bytes),
        CisoHeader::canonical_bytes(total_bytes).len() == HEADER_SIZE,
        CisoHeader::from_bytes(CisoHeader::canonical_bytes(total_bytes) + tail)
            == CisoHeader::canonical(total_bytes),
{
    let h = CisoHeader::canonical(total_bytes);
    assert(h.magic@ =~= seq![0x43u8, 0x49u8, 0x53u8, 0x4Fu8]);
    assert(h.rsv_06@ =~= seq![0u8, 0u8]);
    lemma_canonical_bytes(h, total_bytes);
    lemma_header_round_trip(h, tail);
}

/// Every header is written in 24 bytes, and reading them gives the header back,
/// whatever follows them.
pub proof fn lemma_header_round_trip(h: CisoHeader, tail: Seq<u8>)
    ensures
        h.to_bytes().len() == HEADER_SIZE,
        CisoHeader::from_bytes(h.to_bytes() + tail) == h,
{
    let b = h.to_bytes() + tail;
    let decoded = CisoHeader::from_bytes(b);
    assert(b.subrange(4, 8) =~= u32_le(h.header_size));
    assert(b.subrange(8, 16) =~= u64_le(h.total_bytes));
    assert(b.subrange(16, 20) =~= u32_le(h.block_size));
    lemma_u32_le_round_trip(h.header_size, b, 4);
    lemma_u64_le_round_trip(h.total_bytes, b, 8);
    lemma_u32_le_round_trip(h.block_size, b, 16);
    assert(decoded.magic@ =~= h.magic@);
    assert(decoded.rsv_06@ =~= h.rsv_06@);
    assert(decoded.magic == h.magic);
    assert(decoded.rsv_06 == h.rsv_06);
}

/// Reading 24 bytes as a header and writing that header gives the same 24 bytes.
pub proof fn lemma_bytes_round_trip(b: Seq<u8>)
    requires
        b.len() >= HEADER_SIZE,
    ensures
        CisoHeader::from_bytes(b).to_bytes() == b.subrange(0, HEADER_SIZE as int),
{
    lemma_le_u32_bytes(b, 4);
    lemma_le_u64_bytes(b, 8);
    lemma_le_u32_bytes(b, 16);
    let h = CisoHeader::from_bytes(b);
    assert(h.magic@ =~= b.subrange(0, 4));
    assert(h.rsv_06@ =~= b.subrange(22, 24));
    assert(h.to_bytes() =~= b.subrange(0, HEADER_SIZE as int));
}

} // verus!
