//! The 64-byte header at the start of a cartridge image.
use vstd::prelude::*;
use byteorder::ByteOrder;

verus! {

/// Length in bytes of the header.
pub const HEADER_LEN: usize = 64;

/// Length in bytes of the name field.
pub const NAME_LEN: usize = 20;

/// The timing word of a default cartridge; it is also the native-order magic.
pub const DEFAULT_CART_TIMING: u32 = 0x80371240;

/// The clock rate of a default cartridge.
pub const DEFAULT_CLOCK_RATE: u32 = 0x0000000f;

/// The header fields, in the order they are stored.
#[derive(Clone, Copy, Debug, PartialEq, Eq)]
pub struct RomHeader {
    pub cart_timing: u32,
    pub clock_rate: u32,
    pub load_addr: u32,
    pub release: u32,
    pub crc1: u32,
    pub crc2: u32,
    pub rsvd_18: u32,
    pub rsvd_1c: u32,
    pub name: [u8; 20],
    pub rsvd_34: u32,
    pub manuf_id: u32,
    pub cart_id: u16,
    pub country_code: u16,
}

/// The four bytes of `n`, most significant first.
pub open spec fn be_bytes_u32(n: u32) -> Seq<u8> {
    seq![(n >> 24) as u8, (n >> 16) as u8, (n >> 8) as u8, n as u8]
}

/// The two bytes of `n`, most significant first.
pub open spec fn be_bytes_u16(n: u16) -> Seq<u8> {
    seq![(n >> 8) as u8, n as u8]
}

/// `b` with the bytes from `off` on replaced by `v`.
pub open spec fn splice(b: Seq<u8>, off: int, v: Seq<u8>) -> Seq<u8> {
    b.take(off) + v + b.skip(off + v.len())
}

/// The 64 bytes that store `h`.
pub open spec fn header_bytes(h: RomHeader) -> Seq<u8> {
    be_bytes_u32(h.cart_timing) + be_bytes_u32(h.clock_rate) + be_bytes_u32(h.load_addr)
        + be_bytes_u32(h.release) + be_bytes_u32(h.crc1) + be_bytes_u32(h.crc2) + be_bytes_u32(
        h.rsvd_18,
    ) + be_bytes_u32(h.rsvd_1c) + h.name@ + be_bytes_u32(h.rsvd_34) + be_bytes_u32(h.manuf_id)
        + be_bytes_u16(h.cart_id) + be_bytes_u16(h.country_code)
}

/// Relies on byteorder's `BigEndian::write_u32`: it stores `n` most
/// significant byte first in the first four bytes of its argument (it panics
/// on fewer than four).
#[verifier::external_body]
pub(crate) fn write_be_u32(buf: &mut [u8], off: usize, n: u32)
    requires
        off + 4 <= old(buf)@.len(),
    ensures
        final(buf)@ == splice(old(buf)@, off as int, be_bytes_u32(n)),
{
    byteorder::BigEndian::write_u32(&mut buf[off..], n)
}

/// Relies on byteorder's `BigEndian::write_u16`: it stores `n` most
/// significant byte first in the first two bytes of its argument (it panics
/// on fewer than two).
#[verifier::external_body]
fn write_be_u16(buf: &mut [u8], off: usize, n: u16)
    requires
        off + 2 <= old(buf)@.len(),
    ensures
        final(buf)@ == splice(old(buf)@, off as int, be_bytes_u16(n)),
{
    byteorder::BigEndian::write_u16(&mut buf[off..], n)
}

impl RomHeader {
    /// A header with the default timing and clock rate and every other field zero.
    pub fn new() -> (r: RomHeader)
        ensures
            r.cart_timing == DEFAULT_CART_TIMING,
            r.clock_rate == DEFAULT_CLOCK_RATE,
            r.load_addr == 0,
            r.release == 0,
            r.crc1 == 0,
            r.crc2 == 0,
            r.rsvd_18 == 0,
            r.rsvd_1c == 0,
            r.name@ == Seq::new(20, |i: int| 0u8),
            r.rsvd_34 == 0,
            r.manuf_id == 0,
            r.cart_id == 0,
            r.country_code == 0,
    {
        let r = RomHeader {
            cart_timing: DEFAULT_CART_TIMING,
            clock_rate: DEFAULT_CLOCK_RATE,
            load_addr: 0,
            release: 0,
            crc1: 0,
            crc2: 0,
            rsvd_18: 0,
            rsvd_1c: 0,
            name: [0u8; 20],
            rsvd_34: 0,
            manuf_id: 0,
            cart_id: 0,
            country_code: 0,
        };
        assert(r.name@ =~= Seq::new(20, |i: int| 0u8));
        r
    }

    /// Stores the header in the first 64 bytes of `buf`, big-endian, and
    /// leaves the rest of `buf` as it was.
    pub fn write(&self, buf: &mut [u8])
        requires
            old(buf)@.len() >= HEADER_LEN,
        ensures
            final(buf)@ == header_bytes(*self) + old(buf)@.skip(HEADER_LEN as int),
    {
        let ghost orig = buf@;
        let ghost h = header_bytes(*self);
        write_be_u32(buf, 0, self.cart_timing);
        write_be_u32(buf, 4, self.clock_rate);
        write_be_u32(buf, 8, self.load_addr);
        write_be_u32(buf, 12, self.release);
        write_be_u32(buf, 16, self.crc1);
        write_be_u32(buf, 20, self.crc2);
        write_be_u32(buf, 24, self.rsvd_18);
        write_be_u32(buf, 28, self.rsvd_1c);
        assert(buf@ =~= h.take(32) + orig.skip(32));
        let mut j: usize = 0;
        while j < NAME_LEN
            invariant
                j <= NAME_LEN,
                orig.len() >= HEADER_LEN,
                h == header_bytes(*self),
                buf@ =~= h.take(32 + j) + orig.skip(32 + j),
            decreases NAME_LEN - j,
        {
            buf[32 + j] = self.name[j];
            j = j + 1;
            assert(buf@ =~= h.take(32 + j) + orig.skip(32 + j));
        }
        write_be_u32(buf, 52, self.rsvd_34);
        write_be_u32(buf, 56, self.manuf_id);
        write_be_u16(buf, 60, self.cart_id);
        write_be_u16(buf, 62, self.country_code);
        assert(buf@ =~= h + orig.skip(64));
    }
}

} // verus!
