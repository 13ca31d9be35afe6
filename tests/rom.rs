use n64toolchain::cart::{calculate_cart_checksum, detect_swapping, swap_cart_to, ByteSwapping, ChecksumError, SwapError};
use n64toolchain::rom::{build_rom, parse_u32, update_cart_checksum, BuildError, UpdateError};

fn be(b: &[u8], off: usize) -> u32 {
    u32::from_be_bytes([b[off], b[off + 1], b[off + 2], b[off + 3]])
}

#[test]
fn parse_decimal_and_hex() {
    assert_eq!(parse_u32("123"), Ok(123));
    assert_eq!(parse_u32("+7"), Ok(7));
    assert_eq!(parse_u32("0x10"), Ok(16));
    assert_eq!(parse_u32("0x80000400"), Ok(0x80000400));
    assert_eq!(parse_u32("0xFFFFFFFF"), Ok(u32::MAX));
    assert_eq!(parse_u32("4294967295"), Ok(u32::MAX));
    assert_eq!(parse_u32("010"), Ok(10));
}

#[test]
fn parse_rejects_bad_numbers() {
    assert!(parse_u32("").is_err());
    assert!(parse_u32("0x").is_err());
    assert!(parse_u32("12a").is_err());
    assert!(parse_u32("-1").is_err());
    assert!(parse_u32("4294967296").is_err());
    assert!(parse_u32("0x100000000").is_err());
    assert!(parse_u32(" 1").is_err());
}

#[test]
fn build_rejects_bad_inputs() {
    assert_eq!(build_rom(&[0u8; 100], 0, &[]), Err(BuildError::BadBootcodeLength));
    let boot = vec![1u8; 4032];
    let load = vec![2u8; 0x100001];
    assert_eq!(build_rom(&boot, 0, &load), Err(BuildError::LoadTooLong));
}

#[test]
fn build_lays_out_the_image() {
    let boot: Vec<u8> = (0..4032).map(|i| (i % 253) as u8).collect();
    let load: Vec<u8> = (0..1000).map(|i| (i % 13) as u8).collect();
    let rom = build_rom(&boot, 0x80000400, &load).unwrap();
    assert_eq!(rom.len(), 0x101000);
    assert_eq!(detect_swapping(&rom), Some(ByteSwapping::Native));
    assert_eq!(be(&rom, 4), 0x0000000f);
    assert_eq!(be(&rom, 8), 0x80000400);
    assert_eq!(&rom[64..4096], &boot[..]);
    assert_eq!(&rom[4096..5096], &load[..]);
    assert!(rom[5096..].iter().all(|&b| b == 0xff));
    let (c1, c2) = calculate_cart_checksum(&rom).unwrap();
    assert_eq!(be(&rom, 0x10), c1);
    assert_eq!(be(&rom, 0x14), c2);
    assert!(rom[0x18..0x40].iter().all(|&b| b == 0));
}

#[test]
fn update_fixes_a_native_image() {
    let mut rom: Vec<u8> = (0..0x101000).map(|i| ((i * 7 + 3) & 0xff) as u8).collect();
    rom[0..4].copy_from_slice(&[0x80, 0x37, 0x12, 0x40]);
    let before = rom.clone();
    let (old, new) = update_cart_checksum(&mut rom).unwrap();
    assert_eq!(old, (be(&before, 0x10), be(&before, 0x14)));
    assert_eq!(new, (0xf6c453de, 0x6d3c908c));
    assert_eq!(be(&rom, 0x10), 0xf6c453de);
    assert_eq!(be(&rom, 0x14), 0x6d3c908c);
    assert_eq!(&rom[..0x10], &before[..0x10]);
    assert_eq!(&rom[0x18..], &before[0x18..]);
}

#[test]
fn update_keeps_a_swapped_image_swapped() {
    let mut native: Vec<u8> = (0..0x101000).map(|i| ((i * 7 + 3) & 0xff) as u8).collect();
    native[0..4].copy_from_slice(&[0x80, 0x37, 0x12, 0x40]);
    let mut swapped = native.clone();
    swap_cart_to(ByteSwapping::U16LittleEndian, &mut swapped).unwrap();
    let new = update_cart_checksum(&mut swapped).unwrap().1;
    assert_eq!(new, (0xf6c453de, 0x6d3c908c));
    assert_eq!(detect_swapping(&swapped), Some(ByteSwapping::U16LittleEndian));
    update_cart_checksum(&mut native).unwrap();
    swap_cart_to(ByteSwapping::Native, &mut swapped).unwrap();
    assert_eq!(swapped, native);
}

#[test]
fn update_reports_errors_and_leaves_buffer() {
    let mut unknown = vec![0u8; 16];
    assert_eq!(
        update_cart_checksum(&mut unknown),
        Err(UpdateError::Swap(SwapError::UnknownOriginalSwapping))
    );
    let mut odd = vec![0x37, 0x80, 0x40, 0x12, 0];
    assert_eq!(update_cart_checksum(&mut odd), Err(UpdateError::Swap(SwapError::OddLength)));
    let orig = vec![0x37, 0x80, 0x40, 0x12, 1, 2];
    let mut short = orig.clone();
    assert_eq!(
        update_cart_checksum(&mut short),
        Err(UpdateError::Checksum(ChecksumError::NotLongEnough))
    );
    assert_eq!(short, orig);
}
