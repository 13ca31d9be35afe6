//! Assembling a cartridge image and patching its checksum, and reading the
//! numbers given for them.
use vstd::prelude::*;
use crate::cart::{
    cart_checksum, calculate_cart_checksum, detect_swapping, pairs_swapped, read_be_u32,
    swap_cart_to, swapping_of, be_u32_at, lemma_pairs_swapped_flips_ordering,
    lemma_pairs_swapped_twice, ByteSwapping, ChecksumError, SwapError, CHECKSUM_END,
};
use crate::header::{
    header_bytes, splice, be_bytes_u32, write_be_u32, RomHeader, HEADER_LEN, DEFAULT_CART_TIMING,
    DEFAULT_CLOCK_RATE,
};

verus! {

/// std's error for a number that does not parse; it is handed back as it is.
#[verifier::external_type_specification]
#[verifier::external_body]
pub struct ExParseIntError(std::num::ParseIntError);

/// The value of the digit `c` in bases up to 36, or 36 where `c` is no digit.
pub open spec fn digit_value(c: char) -> nat {
    if '0' <= c && c <= '9' {
        (c as nat - '0' as nat) as nat
    } else if 'a' <= c && c <= 'z' {
        (c as nat - 'a' as nat + 10) as nat
    } else if 'A' <= c && c <= 'Z' {
        (c as nat - 'A' as nat + 10) as nat
    } else {
        36
    }
}

/// The number that the digits `d` write in base `radix`.
pub open spec fn digits_value(d: Seq<char>, radix: nat) -> nat
    decreases d.len(),
{
    if d.len() == 0 {
        0
    } else {
        digits_value(d.drop_last(), radix) * radix + digit_value(d.last())
    }
}

/// `s` without one leading `+`.
pub open spec fn unsigned_digits(s: Seq<char>) -> Seq<char> {
    if s.len() > 0 && s[0] == '+' {
        s.drop_first()
    } else {
        s
    }
}

/// Whether `s` is an optional `+` followed by at least one digit of base
/// `radix`, writing a number that fits in 32 bits.
pub open spec fn parses_as_u32(s: Seq<char>, radix: nat) -> bool {
    let d = unsigned_digits(s);
    &&& d.len() > 0
    &&& forall|i: int| 0 <= i < d.len() ==> digit_value(#[trigger] d[i]) < radix
    &&& digits_value(d, radix) <= u32::MAX
}

/// Relies on std's `u32::from_str_radix`: an optional `+` and then only
/// digits of the base (`0-9`, `a-z`, `A-Z`) give their value, anything else
/// or a value past `u32::MAX` an error; it panics on a base outside 2 to 36.
#[verifier::external_body]
fn u32_from_str_radix(s: &str, radix: u32) -> (r: Result<u32, std::num::ParseIntError>)
    requires
        2 <= radix <= 36,
    ensures
        r is Ok <==> parses_as_u32(s@, radix as nat),
        r is Ok ==> r->Ok_0 == digits_value(unsigned_digits(s@), radix as nat),
{
    u32::from_str_radix(s, radix)
}

/// Whether `s` starts with `0x`.
pub open spec fn has_hex_prefix(s: Seq<char>) -> bool {
    s.len() >= 2 && s[0] == '0' && s[1] == 'x'
}

/// Reads a 32-bit number: hexadecimal after a leading `0x`, decimal otherwise.
pub fn parse_u32(input_string: &str) -> (r: Result<u32, std::num::ParseIntError>)
    ensures
        has_hex_prefix(input_string@) ==> {
            &&& r is Ok <==> parses_as_u32(input_string@.skip(2), 16)
            &&& r is Ok ==> r->Ok_0 == digits_value(unsigned_digits(input_string@.skip(2)), 16)
        },
        !has_hex_prefix(input_string@) ==> {
            &&& r is Ok <==> parses_as_u32(input_string@, 10)
            &&& r is Ok ==> r->Ok_0 == digits_value(unsigned_digits(input_string@), 10)
        },
{
    let len = input_string.unicode_len();
    if len >= 2 && input_string.get_char(0) == '0' && input_string.get_char(1) == 'x' {
        let rest = input_string.substring_char(2, len);
        assert(rest@ =~= input_string@.skip(2));
        u32_from_str_radix(rest, 16)
    } else {
        u32_from_str_radix(input_string, 10)
    }
}

/// Length in bytes of the boot code, which follows the header.
pub const BOOTCODE_LEN: usize = 4096 - 64;

/// Offset of the load image, right after the boot code.
pub const LOAD_START: usize = 4096;

/// The longest load image a cartridge holds.
pub const LOAD_LEN: usize = 0x100000;

/// Length in bytes of an assembled image.
pub const ROM_LEN: usize = LOAD_START + LOAD_LEN;

/// Why an image could not be assembled.
#[derive(Clone, Copy, Debug, PartialEq, Eq, Structural)]
pub enum BuildError {
    /// The boot code is not exactly `BOOTCODE_LEN` bytes long.
    BadBootcodeLength,
    /// The load image is longer than `LOAD_LEN` bytes.
    LoadTooLong,
}

/// `n` bytes of `0xff`.
pub open spec fn filler(n: nat) -> Seq<u8> {
    Seq::new(n, |i: int| 0xffu8)
}

/// The image before its header is written: a blank header, the boot code, the
/// load image, and `0xff` up to the full length.
pub open spec fn rom_body(bootcode: Seq<u8>, load: Seq<u8>) -> Seq<u8> {
    filler(HEADER_LEN as nat) + bootcode + load + filler((LOAD_LEN - load.len()) as nat)
}

/// Whether `h` is the header of an assembled image: the defaults, with its
/// load address and checksum pair.
pub open spec fn is_built_header(h: RomHeader, load_addr: u32, crc: (u32, u32)) -> bool {
    &&& h.cart_timing == DEFAULT_CART_TIMING
    &&& h.clock_rate == DEFAULT_CLOCK_RATE
    &&& h.load_addr == load_addr
    &&& h.release == 0
    &&& h.crc1 == crc.0
    &&& h.crc2 == crc.1
    &&& h.rsvd_18 == 0
    &&& h.rsvd_1c == 0
    &&& h.name@ == Seq::new(20, |i: int| 0u8)
    &&& h.rsvd_34 == 0
    &&& h.manuf_id == 0
    &&& h.cart_id == 0
    &&& h.country_code == 0
}

/// Appends the bytes of `src` to `dst`.
fn append_bytes(dst: &mut Vec<u8>, src: &[u8])
    requires
        old(dst)@.len() + src@.len() <= usize::MAX,
    ensures
        final(dst)@ == old(dst)@ + src@,
{
    let ghost start = dst@;
    let mut i: usize = 0;
    while i < src.len()
        invariant
            i <= src@.len(),
            dst@ =~= start + src@.take(i as int),
        decreases src@.len() - i,
    {
        dst.push(src[i]);
        i = i + 1;
        assert(dst@ =~= start + src@.take(i as int));
    }
    assert(src@.take(src@.len() as int) =~= src@);
}

/// Appends `n` bytes of `0xff` to `dst`.
fn append_filler(dst: &mut Vec<u8>, n: usize)
    requires
        old(dst)@.len() + n <= usize::MAX,
    ensures
        final(dst)@ == old(dst)@ + filler(n as nat),
{
    let ghost start = dst@;
    let mut i: usize = 0;
    while i < n
        invariant
            i <= n,
            dst@ =~= start + filler(i as nat),
        decreases n - i,
    {
        dst.push(0xff);
        i = i + 1;
        assert(dst@ =~= start + filler(i as nat));
    }
}

/// Assembles a cartridge image from its boot code and load image, with a
/// default header that holds `load_addr` and the image's checksum pair.
pub fn build_rom(bootcode: &[u8], load_addr: u32, load: &[u8]) -> (r: Result<Vec<u8>, BuildError>)
    ensures
        bootcode@.len() != BOOTCODE_LEN ==> r == Err::<Vec<u8>, BuildError>(
            BuildError::BadBootcodeLength,
        ),
        bootcode@.len() == BOOTCODE_LEN && load@.len() > LOAD_LEN ==> r == Err::<
            Vec<u8>,
            BuildError,
        >(BuildError::LoadTooLong),
        bootcode@.len() == BOOTCODE_LEN && load@.len() <= LOAD_LEN ==> {
            let body = rom_body(bootcode@, load@);
            &&& r is Ok
            &&& exists|h: RomHeader|
                is_built_header(h, load_addr, cart_checksum(body)) && r->Ok_0@ == header_bytes(h)
                    + body.skip(HEADER_LEN as int)
        },
{
    if bootcode.len() != BOOTCODE_LEN {
        return Err(BuildError::BadBootcodeLength);
    }
    if load.len() > LOAD_LEN {
        return Err(BuildError::LoadTooLong);
    }
    let mut rom: Vec<u8> = Vec::new();
    append_filler(&mut rom, HEADER_LEN);
    append_bytes(&mut rom, bootcode);
    append_bytes(&mut rom, load);
    append_filler(&mut rom, LOAD_LEN - load.len());
    let ghost body = rom_body(bootcode@, load@);
    assert(rom@ =~= body);
    let crc = calculate_cart_checksum(rom.as_slice()).unwrap();
    let mut rom_header = RomHeader::new();
    rom_header.load_addr = load_addr;
    rom_header.crc1 = crc.0;
    rom_header.crc2 = crc.1;
    assert(is_built_header(rom_header, load_addr, crc));
    rom_header.write(rom.as_mut_slice());
    assert(rom@ == header_bytes(rom_header) + body.skip(HEADER_LEN as int));
    Ok(rom)
}

/// Why an image's checksum could not be brought up to date.
#[derive(Clone, Copy, Debug, PartialEq, Eq, Structural)]
pub enum UpdateError {
    /// The image could not be brought to native order.
    Swap(SwapError),
    /// The checksum of the image could not be computed.
    Checksum(ChecksumError),
}

/// Offset of the first checksum word in the header.
pub const CRC1_OFFSET: usize = 0x10;

/// Offset of the second checksum word in the header.
pub const CRC2_OFFSET: usize = 0x14;

/// `b` in native order, for an even-length image of known ordering.
pub open spec fn native_of(b: Seq<u8>) -> Seq<u8> {
    if swapping_of(b) == Some(ByteSwapping::Native) {
        b
    } else {
        pairs_swapped(b)
    }
}

/// The native-order image `n` with its own checksum pair stored in its header.
pub open spec fn with_checksum(n: Seq<u8>) -> Seq<u8> {
    let crc = cart_checksum(n);
    splice(splice(n, CRC1_OFFSET as int, be_bytes_u32(crc.0)), CRC2_OFFSET as int, be_bytes_u32(crc.1))
}

/// Stores the checksum pair of `buffer` in its header, whatever its byte
/// ordering, and leaves it in the ordering it had. Returns the pair the header
/// held before and the new one. On an error the buffer is left as it was.
pub fn update_cart_checksum(buffer: &mut [u8]) -> (r: Result<((u32, u32), (u32, u32)), UpdateError>)
    ensures
        swapping_of(old(buffer)@).is_none() ==> r == Err::<((u32, u32), (u32, u32)), UpdateError>(
            UpdateError::Swap(SwapError::UnknownOriginalSwapping),
        ),
        swapping_of(old(buffer)@).is_some() && old(buffer)@.len() % 2 != 0 ==> r == Err::<
            ((u32, u32), (u32, u32)),
            UpdateError,
        >(UpdateError::Swap(SwapError::OddLength)),
        swapping_of(old(buffer)@).is_some() && old(buffer)@.len() % 2 == 0 && old(buffer)@.len()
            < CHECKSUM_END ==> r == Err::<((u32, u32), (u32, u32)), UpdateError>(
            UpdateError::Checksum(ChecksumError::NotLongEnough),
        ),
        r is Err ==> final(buffer)@ == old(buffer)@,
        swapping_of(old(buffer)@).is_some() && old(buffer)@.len() % 2 == 0 && old(buffer)@.len()
            >= CHECKSUM_END ==> {
            let n = native_of(old(buffer)@);
            &&& r == Ok::<((u32, u32), (u32, u32)), UpdateError>(
                (
                    (be_u32_at(n, CRC1_OFFSET as int), be_u32_at(n, CRC2_OFFSET as int)),
                    cart_checksum(n),
                ),
            )
            &&& final(buffer)@ == if swapping_of(old(buffer)@) == Some(ByteSwapping::Native) {
                with_checksum(n)
            } else {
                pairs_swapped(with_checksum(n))
            }
        },
{
    let ghost orig = buffer@;
    let original = match detect_swapping(buffer) {
        Some(swapping) => swapping,
        None => {
            return Err(UpdateError::Swap(SwapError::UnknownOriginalSwapping));
        },
    };
    match swap_cart_to(ByteSwapping::Native, buffer) {
        Ok(()) => {},
        Err(e) => {
            return Err(UpdateError::Swap(e));
        },
    }
    proof {
        if original != ByteSwapping::Native {
            lemma_pairs_swapped_flips_ordering(orig);
            lemma_pairs_swapped_twice(orig);
        }
        assert(buffer@ == native_of(orig));
        assert(swapping_of(buffer@) == Some(ByteSwapping::Native));
    }
    let crc = match calculate_cart_checksum(buffer) {
        Ok(crc) => crc,
        Err(e) => {
            let restored = swap_cart_to(original, buffer);
            assert(restored is Ok);
            return Err(UpdateError::Checksum(e));
        },
    };
    let previous = (read_be_u32(buffer, CRC1_OFFSET), read_be_u32(buffer, CRC2_OFFSET));
    let ghost n = buffer@;
    write_be_u32(buffer, CRC1_OFFSET, crc.0);
    write_be_u32(buffer, CRC2_OFFSET, crc.1);
    proof {
        assert(buffer@ == with_checksum(n));
        assert(buffer@[0] == n[0] && buffer@[1] == n[1] && buffer@[2] == n[2] && buffer@[3]
            == n[3]);
        assert(swapping_of(buffer@) == Some(ByteSwapping::Native));
    }
    let restored = swap_cart_to(original, buffer);
    assert(restored is Ok);
    Ok((previous, crc))
}

} // verus!
