//! The reader of big-endian fields.
use bluray::bdmv::common::{BdmvHeader, Reader, clpi_path, m2ts_path};

#[test]
fn header_parse() {
    let buf = b"INDX0200";
    let h = BdmvHeader::parse(buf).unwrap();
    assert_eq!(h.type_indicator, b"INDX");
    assert_eq!(h.version_number, b"0200");
}

#[test]
fn header_truncated() {
    assert!(BdmvHeader::parse(b"INDX").is_err());
}

#[test]
fn reader_u32_bounds() {
    let buf = [0u8, 0, 0, 1, 0, 0, 0, 2];
    let mut r = Reader::new(&buf);
    assert_eq!(r.read_u32().unwrap(), 1);
    assert_eq!(r.read_u32().unwrap(), 2);
    assert!(r.read_u8().is_err());
}

#[test]
fn clpi_and_m2ts_paths() {
    assert_eq!(
        clpi_path("00012", b"M2TS").unwrap(),
        "BDMV/CLIPINF/00012.clpi"
    );
    assert_eq!(m2ts_path("00012").unwrap(), "BDMV/STREAM/00012.m2ts");
    assert!(clpi_path("12", b"M2TS").is_err());
    assert!(clpi_path("00012", b"FMTS").is_err());
}
