use n64toolchain::header::RomHeader;

#[test]
fn new_header_has_defaults() {
    let h = RomHeader::new();
    assert_eq!(h.cart_timing, 0x80371240);
    assert_eq!(h.clock_rate, 0x0000000f);
    assert_eq!(h.load_addr, 0);
    assert_eq!(h.crc1, 0);
    assert_eq!(h.crc2, 0);
    assert_eq!(h.name, [0u8; 20]);
    assert_eq!(h.cart_id, 0);
    assert_eq!(h.country_code, 0);
}

#[test]
fn header_is_written_big_endian() {
    let mut h = RomHeader::new();
    h.load_addr = 0x80000400;
    h.release = 0x01020304;
    h.crc1 = 0xdeadbeef;
    h.crc2 = 0x0badf00d;
    h.name[0] = b'A';
    h.name[19] = b'Z';
    h.manuf_id = 0x4e;
    h.cart_id = 0x1234;
    h.country_code = 0x4500;
    let mut buf = vec![0xaau8; 70];
    h.write(&mut buf);
    let mut expected = vec![
        0x80, 0x37, 0x12, 0x40, 0x00, 0x00, 0x00, 0x0f, 0x80, 0x00, 0x04, 0x00, 0x01, 0x02, 0x03,
        0x04, 0xde, 0xad, 0xbe, 0xef, 0x0b, 0xad, 0xf0, 0x0d, 0, 0, 0, 0, 0, 0, 0, 0,
    ];
    let mut name = [0u8; 20];
    name[0] = b'A';
    name[19] = b'Z';
    expected.extend_from_slice(&name);
    expected.extend_from_slice(&[0, 0, 0, 0, 0, 0, 0, 0x4e, 0x12, 0x34, 0x45, 0x00]);
    expected.extend_from_slice(&[0xaa; 6]);
    assert_eq!(buf, expected);
}
