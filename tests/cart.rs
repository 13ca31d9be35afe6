use n64toolchain::cart::{
    calculate_cart_checksum, detect_swapping, rol_u32, swap_cart_to, ByteSwapping, ChecksumError,
    SwapError,
};

const START: u32 = 0xf8ca4ddc;

fn patterned(len: usize) -> Vec<u8> {
    (0..len).map(|i| ((i * 7 + 3) & 0xff) as u8).collect()
}

#[test]
fn it_works() {}

#[test]
fn short_buffers_are_undetermined() {
    assert_eq!(detect_swapping(&[]), None);
    assert_eq!(detect_swapping(&[0x80]), None);
    assert_eq!(detect_swapping(&[0x80, 0x37, 0x12]), None);
}

#[test]
fn native_magic_is_detected() {
    assert_eq!(detect_swapping(&[0x80, 0x37, 0x12, 0x40]), Some(ByteSwapping::Native));
    assert_eq!(
        detect_swapping(&[0x80, 0x37, 0x12, 0x40, 0xaa, 0xbb, 0xcc]),
        Some(ByteSwapping::Native)
    );
}

#[test]
fn swapped_magic_is_detected() {
    assert_eq!(
        detect_swapping(&[0x37, 0x80, 0x40, 0x12, 0x01, 0x02]),
        Some(ByteSwapping::U16LittleEndian)
    );
}

#[test]
fn other_magic_is_undetermined() {
    assert_eq!(detect_swapping(&[0x12, 0x34, 0x56, 0x78, 0x00]), None);
    assert_eq!(detect_swapping(&[0, 0, 0, 0]), None);
    assert_eq!(detect_swapping(&[0xff, 0xff, 0xff, 0xff]), None);
}

#[test]
fn ordering_names() {
    assert_eq!(ByteSwapping::Native.name(), "Native");
    assert_eq!(ByteSwapping::U16LittleEndian.name(), "U16 Little Endian");
}

#[test]
fn swap_to_current_ordering_changes_nothing() {
    let orig = vec![0x80, 0x37, 0x12, 0x40, 1, 2, 3, 4];
    let mut buf = orig.clone();
    assert_eq!(swap_cart_to(ByteSwapping::Native, &mut buf), Ok(()));
    assert_eq!(buf, orig);
    let orig = vec![0x37, 0x80, 0x40, 0x12, 9, 8];
    let mut buf = orig.clone();
    assert_eq!(swap_cart_to(ByteSwapping::U16LittleEndian, &mut buf), Ok(()));
    assert_eq!(buf, orig);
}

#[test]
fn swap_exchanges_every_pair() {
    let mut buf = vec![0x37, 0x80, 0x40, 0x12, 1, 2, 3, 4];
    assert_eq!(swap_cart_to(ByteSwapping::Native, &mut buf), Ok(()));
    assert_eq!(buf, vec![0x80, 0x37, 0x12, 0x40, 2, 1, 4, 3]);
}

#[test]
fn swap_round_trip_restores_buffer() {
    let orig = vec![0x80, 0x37, 0x12, 0x40, 5, 6, 7, 8, 9, 10];
    let mut buf = orig.clone();
    assert_eq!(swap_cart_to(ByteSwapping::U16LittleEndian, &mut buf), Ok(()));
    assert_ne!(buf, orig);
    assert_eq!(detect_swapping(&buf), Some(ByteSwapping::U16LittleEndian));
    assert_eq!(swap_cart_to(ByteSwapping::Native, &mut buf), Ok(()));
    assert_eq!(buf, orig);
}

#[test]
fn swap_refuses_odd_length() {
    let orig = vec![0x80, 0x37, 0x12, 0x40, 1];
    let mut buf = orig.clone();
    assert_eq!(swap_cart_to(ByteSwapping::U16LittleEndian, &mut buf), Err(SwapError::OddLength));
    assert_eq!(buf, orig);
    let mut buf = vec![0x37, 0x80, 0x40, 0x12, 1, 2, 3];
    assert_eq!(swap_cart_to(ByteSwapping::U16LittleEndian, &mut buf), Err(SwapError::OddLength));
}

#[test]
fn swap_refuses_unknown_ordering() {
    let orig = vec![0x12, 0x34, 0x56, 0x78, 1, 2];
    let mut buf = orig.clone();
    assert_eq!(
        swap_cart_to(ByteSwapping::Native, &mut buf),
        Err(SwapError::UnknownOriginalSwapping)
    );
    assert_eq!(buf, orig);
    let mut short = vec![0x80, 0x37];
    assert_eq!(
        swap_cart_to(ByteSwapping::Native, &mut short),
        Err(SwapError::UnknownOriginalSwapping)
    );
}

#[test]
fn rotation() {
    assert_eq!(rol_u32(0x8000_0001, 1), 0x0000_0003);
    assert_eq!(rol_u32(0x1234_5678, 0), 0x1234_5678);
    assert_eq!(rol_u32(0x1234_5678, 4), 0x2345_6781);
    assert_eq!(rol_u32(0x0000_0001, 31), 0x8000_0000);
}

#[test]
fn checksum_needs_the_whole_window() {
    assert_eq!(calculate_cart_checksum(&[]), Err(ChecksumError::NotLongEnough));
    let buf = vec![0u8; 0x100fff];
    assert_eq!(calculate_cart_checksum(&buf), Err(ChecksumError::NotLongEnough));
}

#[test]
fn checksum_of_zero_window() {
    let buf = vec![0u8; 0x101000];
    let (c1, c2) = calculate_cart_checksum(&buf).unwrap();
    assert_eq!(c1, START);
    let mut t1 = START;
    for _ in 0..0x40000 {
        t1 = t1.wrapping_add(START);
    }
    assert_eq!(c2, START ^ START ^ t1);
    assert_eq!(c2, 0x303a4ddc);
}

#[test]
fn checksum_of_patterned_window() {
    let buf = patterned(0x101000);
    assert_eq!(calculate_cart_checksum(&buf), Ok((0xf6c453de, 0x6d3c908c)));
}

#[test]
fn checksum_of_all_ones_window() {
    let buf = vec![0xffu8; 0x101000];
    assert_eq!(calculate_cart_checksum(&buf), Ok((0xf8c24ddc, 0xc1544ddc)));
}

#[test]
fn checksum_is_deterministic_and_reads_only_the_window() {
    let a = patterned(0x101000);
    let first = calculate_cart_checksum(&a);
    assert_eq!(calculate_cart_checksum(&a), first);
    let mut b = a.clone();
    b[0] = 0x55;
    b[0xfff] = 0x66;
    b.extend_from_slice(&[1, 2, 3]);
    assert_eq!(calculate_cart_checksum(&b), first);
    let mut c = a.clone();
    c[0x1000] ^= 1;
    assert_ne!(calculate_cart_checksum(&c), first);
}
