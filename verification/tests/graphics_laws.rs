//! What holds of presentation graphics as a whole, on concrete values.
use bluray::bdmv::pgs::render::{ycbcr709_to_rgb, Palette, Rgba8, RgbaImage};
use bluray::bdmv::pgs::rle::decode_rle;
use bluray::bdmv::pgs::segment::{
    parse_segments, PaletteEntry, Pds, Segment, SegmentBody, SegmentHeader,
};
use bluray::BlurayError;

fn colour(id: u8, y: u8, alpha: u8) -> PaletteEntry {
    PaletteEntry { palette_entry_id: id, y, cr: 128, cb: 128, alpha }
}

fn pds(palette_id: u8, entries: Vec<PaletteEntry>) -> Pds {
    Pds { palette_id, palette_version_number: 0, entries }
}

#[test]
fn later_entries_count_and_others_stay() {
    let list = [
        pds(1, vec![colour(5, 16, 255), colour(6, 235, 255), colour(5, 235, 9)]),
        pds(2, vec![colour(6, 16, 7)]),
    ];
    let p = Palette::from_palettes(&list);
    assert_eq!(p.get(5), Rgba8 { r: 255, g: 255, b: 255, a: 9 });
    assert_eq!(p.get(6), Rgba8 { r: 0, g: 0, b: 0, a: 7 });
    assert_eq!(p.get(7), Rgba8::transparent());
    let only = Palette::from_palettes_with_id(&list, 2);
    assert_eq!(only.get(5), Rgba8::transparent());
    assert_eq!(only.get(6), Rgba8 { r: 0, g: 0, b: 0, a: 7 });
    assert_eq!(Palette::from_palettes_with_id(&list, 3), Palette::new());
}

#[test]
fn neutral_colours_are_grey_and_grow_brighter() {
    let mut last = 0u8;
    for y in 0u8..=255 {
        let (r, g, b) = ycbcr709_to_rgb(y, 128, 128);
        assert!(r == g && g == b);
        assert!(r >= last);
        last = r;
    }
    assert_eq!(ycbcr709_to_rgb(16, 128, 128), (0, 0, 0));
    assert_eq!(ycbcr709_to_rgb(126, 128, 128), (128, 128, 128));
    assert_eq!(ycbcr709_to_rgb(235, 128, 128), (255, 255, 255));
    assert_eq!(last, 255);
}

#[test]
fn colours_differ_by_their_differences() {
    // Pure red, green and blue in studio range.
    assert_eq!(ycbcr709_to_rgb(63, 102, 240), (255, 1, 0));
    assert_eq!(ycbcr709_to_rgb(173, 42, 26), (0, 255, 1));
    assert_eq!(ycbcr709_to_rgb(32, 240, 118), (1, 0, 255));
}

#[test]
fn channels_in_order() {
    assert_eq!(Rgba8 { r: 1, g: 2, b: 3, a: 4 }.to_array(), [1, 2, 3, 4]);
    let image = RgbaImage {
        width: 2,
        height: 1,
        pixels: vec![Rgba8 { r: 1, g: 2, b: 3, a: 4 }, Rgba8::transparent()],
    };
    assert_eq!(image.to_rgba_bytes(), vec![1, 2, 3, 4, 0, 0, 0, 0]);
    assert_eq!(image.pixel(1, 0), Some(Rgba8::transparent()));
    assert_eq!(image.pixel(2, 0), None);
    assert_eq!(image.pixel(0, 1), None);
}

#[test]
fn one_run_makes_a_uniform_line() {
    for width in [1u16, 63, 64, 300, 16383] {
        let hi = (width >> 8) as u8;
        let data = [0x00, 0xC0 | hi, width as u8, 0x2A, 0x00, 0x00];
        let d = decode_rle(&data, width, 1).expect("valid");
        assert_eq!(d.pixels, vec![0x2A; width as usize]);
    }
    // Nothing at all is a picture without lines.
    assert!(decode_rle(&[], 3, 0).expect("valid").pixels.is_empty());
    assert!(matches!(decode_rle(&[], 3, 1), Err(BlurayError::Malformed(_))));
    // Lines of width 0 need their ends.
    assert!(decode_rle(&[0, 0, 0, 0], 0, 2).expect("valid").pixels.is_empty());
}

#[test]
fn runs_that_are_cut_short_are_refused() {
    for data in [&[0x00, 0x41][..], &[0x00, 0x81], &[0x00, 0xC0, 0x01], &[0x00]] {
        assert!(matches!(decode_rle(data, 8, 1), Err(BlurayError::Malformed(_))));
    }
}

#[test]
fn streams_survive_a_round_trip() {
    let header =
        |segment_type: u8| SegmentHeader { pts: 90_000, dts: 1, segment_type, segment_size: 0 };
    let list = vec![
        Segment {
            header: header(0x14),
            body: SegmentBody::Pds(pds(3, vec![colour(1, 50, 60)])),
        },
        Segment {
            header: header(0x77),
            body: SegmentBody::Other { segment_type: 0x77, data: vec![1, 2, 3] },
        },
        Segment { header: header(0x80), body: SegmentBody::End },
    ];
    let mut bytes = Vec::new();
    for s in &list {
        bytes.extend_from_slice(&s.encode());
    }
    let back = parse_segments(&bytes).expect("valid");
    assert_eq!(back.len(), 3);
    for (a, b) in back.iter().zip(&list) {
        assert_eq!(a.body, b.body);
        assert_eq!((a.header.pts, a.header.dts), (90_000, 1));
    }
    for cut in 1..bytes.len() {
        let whole = [20usize, 36, 49];
        assert_eq!(parse_segments(&bytes[..cut]).is_ok(), whole.contains(&cut));
    }
}
