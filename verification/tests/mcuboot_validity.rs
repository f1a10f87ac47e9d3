use pinetimers::mcuboot::{
    BootError, MCUBoot, FLAG_NOT_VALID, FLAG_VALID, FOOTER_LEN, HEADER_LEN, IMAGE_MAGIC,
    SUPPORTED_FORMAT_VERSION,
};

fn put_le32(bytes: &mut [u8], off: usize, v: u32) {
    bytes[off] = (v & 0xff) as u8;
    bytes[off + 1] = ((v >> 8) & 0xff) as u8;
    bytes[off + 2] = ((v >> 16) & 0xff) as u8;
    bytes[off + 3] = ((v >> 24) & 0xff) as u8;
}

fn sample_header() -> Vec<u8> {
    let mut h = vec![0u8; HEADER_LEN];
    put_le32(&mut h, 0, IMAGE_MAGIC);
    put_le32(&mut h, 4, 0x2000_0000);
    put_le32(&mut h, 8, 0x0004_8000);
    put_le32(&mut h, 12, SUPPORTED_FORMAT_VERSION);
    h
}

fn sample_footer(flag: u8) -> Vec<u8> {
    let mut f = vec![0u8; FOOTER_LEN];
    f[0] = flag;
    put_le32(&mut f, 4, 0xcafe_f00d);
    f
}

#[test]
fn recognized_metadata_parses_fully() {
    let h = sample_header();
    let f = sample_footer(FLAG_NOT_VALID);
    let m = MCUBoot::get(&h, &f).unwrap();
    assert_eq!(m.header.magic, IMAGE_MAGIC);
    assert_eq!(m.header.load_address, 0x2000_0000);
    assert_eq!(m.header.image_size, 0x0004_8000);
    assert_eq!(m.header.format_version, SUPPORTED_FORMAT_VERSION);
    assert!(!m.footer.is_valid);
    assert_eq!(m.footer.digest, 0xcafe_f00d);
}

#[test]
fn already_committed_footer_reads_valid() {
    let h = sample_header();
    let f = sample_footer(FLAG_VALID);
    let m = MCUBoot::get(&h, &f).unwrap();
    assert!(m.footer.is_valid);
}

/// A corrupted magic field fails fatally: no partially populated record.
#[test]
fn corrupted_magic_is_fatal() {
    let mut h = sample_header();
    put_le32(&mut h, 0, IMAGE_MAGIC ^ 0x1);
    let f = sample_footer(FLAG_NOT_VALID);
    assert_eq!(MCUBoot::get(&h, &f), Err(BootError::HeaderMagic));
}

#[test]
fn unknown_format_version_is_fatal() {
    let mut h = sample_header();
    put_le32(&mut h, 12, SUPPORTED_FORMAT_VERSION + 1);
    let f = sample_footer(FLAG_NOT_VALID);
    assert_eq!(MCUBoot::get(&h, &f), Err(BootError::HeaderVersion));
}

#[test]
fn unrecognized_footer_flag_is_fatal() {
    let h = sample_header();
    let f = sample_footer(0x02);
    assert_eq!(MCUBoot::get(&h, &f), Err(BootError::FooterFlag));
}

/// `mark_valid` twice leaves `is_valid == true` both times with no further
/// observable state change on the second call.
#[test]
fn mark_valid_twice_is_idempotent() {
    let h = sample_header();
    let f = sample_footer(FLAG_NOT_VALID);
    let mut m = MCUBoot::get(&h, &f).unwrap();
    assert!(!m.footer.is_valid);
    let w1 = m.mark_valid();
    assert!(m.footer.is_valid);
    assert_eq!(w1, vec![FLAG_VALID]);
    let snapshot = m;
    let w2 = m.mark_valid();
    assert!(m.footer.is_valid);
    assert_eq!(w2, vec![FLAG_VALID]);
    assert_eq!(m, snapshot);
}
