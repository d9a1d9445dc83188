//! What is said of bytes that cannot be read.
use bluray::bdmv::bits::BitReader;
use bluray::bdmv::clpi::ClipInformation;
use bluray::bdmv::common::{clpi_path, m2ts_path, BdmvHeader, Reader};
use bluray::bdmv::index_bdmv::IndexBdmv;
use bluray::bdmv::movie_object::MovieObjects;
use bluray::bdmv::mpls::PlayListMpls;
use bluray::bdmv::pgs::{decode_rle, parse_display_sets, parse_segments, Segment, SegmentHeader};
use bluray::BlurayError;

fn malformed<T>(r: Result<T, BlurayError>) -> String {
    match r {
        Err(BlurayError::Malformed(text)) => text,
        Err(_) => panic!("another error"),
        Ok(_) => panic!("no error"),
    }
}

fn segment(kind: u8, body: &[u8]) -> Vec<u8> {
    let mut out = vec![0x50, 0x47, 0, 0, 0, 0, 0, 0, 0, 0, kind];
    out.extend_from_slice(&(body.len() as u16).to_be_bytes());
    out.extend_from_slice(body);
    out
}

/// A composition of 8 by 8 pixels that shows nothing.
fn composition() -> Vec<u8> {
    segment(0x16, &[0, 8, 0, 8, 0x10, 0, 0, 0x80, 0, 0, 0])
}

fn fragment(flag: u8, length: u8, data: &[u8]) -> Vec<u8> {
    let mut body = vec![0, 1, 0, flag, 0, 0, length];
    if flag & 0x80 != 0 {
        body.extend_from_slice(&[0, 1, 0, 1]);
    }
    body.extend_from_slice(data);
    segment(0x15, &body)
}

#[test]
fn a_reader_says_where_it_was_sent() {
    let bytes = [1u8, 2, 3];
    let mut r = Reader::new(&bytes);
    assert_eq!(malformed(r.seek(7)), "seek to 7 past end 3");
    r.seek(2).unwrap();
    assert_eq!(malformed(r.skip(5)), "seek to 7 past end 3");
    assert_eq!(malformed(r.read_u16()), "slice past end");
    assert_eq!(r.pos, 2);
    assert_eq!(malformed(BdmvHeader::parse(&bytes)), "BDMV header truncated");
    let mut bits = BitReader::new(&bytes);
    assert_eq!(bits.read_bits(20).unwrap(), 0x01020);
    assert_eq!(malformed(bits.read_bits(5)), "BitReader past end");
}

#[test]
fn a_bad_clip_name_is_quoted() {
    assert_eq!(malformed(m2ts_path("12a")), "clip name \"12a\" is not 5 digits");
    assert_eq!(malformed(m2ts_path("1\"\n")), "clip name \"1\\\"\\n\" is not 5 digits");
    assert_eq!(malformed(clpi_path("", b"M2TS")), "clip name \"\" is not 5 digits");
    match clpi_path("00001", b"FMTS") {
        Err(BlurayError::Unsupported(text)) => assert_eq!(text, "non-M2TS clip codec \"FMTS\""),
        _ => panic!("not refused"),
    }
    match clpi_path("00001", &[0xFF, 0, 0, 0]) {
        Err(BlurayError::Unsupported(text)) => assert_eq!(text, "non-M2TS clip codec \"???\""),
        _ => panic!("not refused"),
    }
}

#[test]
fn a_file_of_another_type_is_named() {
    let bytes = b"ABCD0200";
    let shown = "type_indicator [65, 66, 67, 68]";
    assert_eq!(malformed(IndexBdmv::parse(bytes)), format!("index.bdmv {shown}"));
    assert_eq!(malformed(MovieObjects::parse(bytes)), format!("MovieObject.bdmv {shown}"));
    assert_eq!(malformed(PlayListMpls::parse(bytes)), format!(".mpls {shown}"));
    assert_eq!(malformed(ClipInformation::parse(bytes)), format!(".clpi {shown}"));
}

#[test]
fn an_index_says_where_it_breaks() {
    let mut bytes = b"INDX0200".to_vec();
    assert_eq!(malformed(IndexBdmv::parse(&bytes)), "index.bdmv truncated before AppInfo");
    bytes.resize(44, 0);
    assert_eq!(malformed(IndexBdmv::parse(&bytes)), "AppInfoBDMV length < 2");
    bytes[43] = 34;
    bytes.resize(46, 0);
    assert_eq!(malformed(IndexBdmv::parse(&bytes)), "seek to 78 past end 46");
    bytes.resize(78, 0);
    bytes[11] = 200;
    assert_eq!(malformed(IndexBdmv::parse(&bytes)), "seek to 200 past end 78");
    bytes[11] = 78;
    bytes.extend_from_slice(&[0, 0, 1, 0]);
    assert_eq!(malformed(IndexBdmv::parse(&bytes)), "Indexes overruns buffer");
    bytes.truncate(78);
    bytes.extend_from_slice(&[0, 0, 0, 12, 0xC0, 0, 0, 0, 0, 0, 0, 0, 0, 0, 0, 0]);
    assert_eq!(malformed(IndexBdmv::parse(&bytes)), "unknown object_type 3 in index.bdmv");
    bytes[82] = 0x80;
    bytes[86] = 0xFF;
    assert_eq!(malformed(IndexBdmv::parse(&bytes)), "BD-J bdjo_file_name not ASCII");
}

#[test]
fn a_movie_object_file_says_where_it_breaks() {
    let mut bytes = b"MOBJ0200".to_vec();
    assert_eq!(malformed(MovieObjects::parse(&bytes)), "seek to 40 past end 8");
    bytes.resize(44, 0);
    assert_eq!(malformed(MovieObjects::parse(&bytes)), "seek to 76 past end 44");
    bytes[43] = 9;
    assert_eq!(malformed(MovieObjects::parse(&bytes)), "MovieObjects body overruns buffer");
    bytes[43] = 0;
    bytes.resize(77, 0);
    assert_eq!(malformed(MovieObjects::parse(&bytes)), "slice past end");
}

/// A playlist with one item whose name is `name`, cut off behind it.
fn playlist(name: &[u8]) -> Vec<u8> {
    let mut bytes = b"MPLS0200".to_vec();
    bytes.resize(40, 0);
    bytes[11] = 58;
    bytes.extend_from_slice(&[0, 0, 0, 14]);
    bytes.resize(58, 0);
    bytes.extend_from_slice(&[0, 0, 0, 6, 0, 0, 0, 1, 0, 0]);
    bytes.extend_from_slice(&[0, 0]);
    bytes.extend_from_slice(name);
    bytes
}

#[test]
fn a_playlist_says_where_it_breaks() {
    let parse = |b: &[u8]| malformed(PlayListMpls::parse(b));
    let mut bytes = b"MPLS0200".to_vec();
    assert_eq!(parse(&bytes), ".mpls truncated before AppInfo");
    bytes.resize(44, 0);
    assert_eq!(parse(&bytes), "AppInfoPlayList shorter than 14 bytes");
    bytes[43] = 14;
    assert_eq!(parse(&bytes), "seek to 45 past end 44");
    assert_eq!(parse(&playlist(b"00001")[..69]), "slice past end");
    assert_eq!(parse(&playlist(&[0xFF; 5])), "PlayItem clip name not ASCII");
    assert_eq!(parse(&playlist(b"00001")), "slice past end");

    let mut long = playlist(b"00001");
    long[61] = 200;
    assert_eq!(parse(&long), "PlayList body overruns buffer");

    // One angle more, with a broken name.
    let mut angles = playlist(b"00001");
    angles.extend_from_slice(b"M2TS");
    angles.extend_from_slice(&[0, 0x11]);
    angles.resize(angles.len() + 21, 0);
    angles.extend_from_slice(&[2, 0, 0xFF, 0, 0, 0, 0]);
    assert_eq!(parse(&angles), "PlayItem angle clip name not ASCII");

    // A table of streams that counts one video stream.
    let mut streams = playlist(b"00001");
    streams.extend_from_slice(b"M2TS");
    streams.extend_from_slice(&[0, 1]);
    streams.resize(streams.len() + 21, 0);
    streams.extend_from_slice(&[0, 14, 0, 0, 1, 0, 0, 0, 0, 0, 0, 0, 0, 0, 0, 0]);
    assert_eq!(parse(&streams), "slice past end");
    streams.push(9);
    assert_eq!(parse(&streams), "stream_entry overruns buffer");
    *streams.last_mut().unwrap() = 0;
    streams.push(5);
    assert_eq!(parse(&streams), "video stream_attributes overruns");
    let counts = streams.len() - 14;
    streams[counts] = 0;
    streams[counts + 1] = 1;
    assert_eq!(parse(&streams), "audio stream_attributes overruns");
    streams[counts + 1] = 0;
    streams[counts + 6] = 1;
    assert_eq!(parse(&streams), "graphics stream_attributes overruns");
}

#[test]
fn a_clip_says_where_it_breaks() {
    let parse = |b: &[u8]| malformed(ClipInformation::parse(b));
    let mut bytes = b"HDMV0200".to_vec();
    assert_eq!(parse(&bytes), ".clpi truncated");
    bytes.resize(50, 0);
    assert_eq!(parse(&bytes), "seek to 52 past end 50");
    bytes.resize(100, 0);
    assert_eq!(parse(&bytes), "seek to 188 past end 100");
    bytes.resize(194, 0);
    bytes[42] = 1;
    assert_eq!(parse(&bytes), "seek to 300 past end 194");
    bytes[42] = 0;
    bytes[10] = 1;
    assert_eq!(parse(&bytes), "seek to 256 past end 194");

    // An empty list of sequences, an empty list of programs, then the CPI.
    let mut clip = b"HDMV0200".to_vec();
    clip.resize(194, 0);
    clip[11] = 194;
    clip[15] = 200;
    clip[19] = 206;
    clip.resize(206, 0);
    clip.extend_from_slice(&[0, 0, 0, 99]);
    assert_eq!(parse(&clip), "CPI length past EOF");
    clip[209] = 16;
    clip.extend_from_slice(&[0, 1, 0, 1, 0x10, 0x11, 0, 0, 0, 0, 0, 0, 0, 0, 0, 99]);
    assert_eq!(parse(&clip), "EP_map_for_one_stream_PID start address past CPI body end");
    clip[225] = 10;
    clip[222] = 0;
    clip[223] = 0;
    let body = 206 + 6 + 10;
    assert_eq!(clip[body..body + 4], [0, 0, 0, 10]);
    assert_eq!(parse(&clip), "EP_fine table start address past CPI body end");
}

#[test]
fn segments_say_where_they_break() {
    assert_eq!(malformed(SegmentHeader::parse(&[0x50])), "PG segment header truncated");
    assert_eq!(malformed(SegmentHeader::parse(&[0; 13])), "PG segment header bad magic");
    let whole = segment(0x80, &[]);
    assert!(Segment::parse(&whole).is_ok());
    assert_eq!(malformed(Segment::parse(&segment(0x80, &[1]))), "END segment with non-zero body");
    let cut = segment(0x17, &[1, 2]);
    assert_eq!(malformed(Segment::parse(&cut[..14])), "PG segment body truncated");
    assert_eq!(malformed(Segment::parse(&cut)), "PGS segment body read past end");
    assert_eq!(
        malformed(Segment::parse(&segment(0x14, &[0, 0, 1]))),
        "PDS body not a whole number of 5-byte palette entries"
    );
    assert_eq!(malformed(Segment::parse(&segment(0x14, &[0]))), "PGS segment body read past end");
    // The first broken segment counts.
    let mut stream = segment(0x80, &[]);
    stream.extend_from_slice(&segment(0x80, &[1]));
    stream.push(0);
    assert_eq!(malformed(parse_segments(&stream)), "END segment with non-zero body");
}

#[test]
fn display_sets_say_where_they_break() {
    let sets = |parts: &[Vec<u8>]| malformed(parse_display_sets(&parts.concat()));
    let windows = segment(0x17, &[0]);
    let palette = segment(0x14, &[0, 0]);
    let object = fragment(0xC0, 5, &[7]);
    let end = segment(0x80, &[]);
    let other = segment(0x33, &[]);
    assert_eq!(sets(&[windows.clone()]), "PGS WDS before any PCS");
    assert_eq!(sets(&[palette.clone()]), "PGS PDS before any PCS");
    assert_eq!(sets(&[object]), "PGS ODS before any PCS");
    assert_eq!(sets(&[end]), "PGS END before any PCS");
    assert_eq!(sets(&[other]), "PGS unknown segment before any PCS");
    assert_eq!(
        sets(&[composition(), composition()]),
        "PGS Display Set opened a second PCS before END"
    );
    assert_eq!(
        sets(&[composition(), windows.clone(), windows]),
        "PGS Display Set with more than one WDS"
    );
    assert_eq!(
        sets(&[composition(), palette]),
        "PGS trailing Display Set without an END segment"
    );
}

#[test]
fn objects_say_where_they_break() {
    let join = |parts: &[Vec<u8>]| {
        let mut stream = composition();
        stream.extend_from_slice(&parts.concat());
        stream.extend_from_slice(&segment(0x80, &[]));
        let sets = parse_display_sets(&stream).unwrap();
        malformed(sets[0].reassemble_objects())
    };
    let whole = fragment(0xC0, 5, &[7]);
    let first = fragment(0x80, 6, &[7]);
    let last = fragment(0x40, 0, &[7]);
    assert_eq!(
        join(&[first.clone(), first.clone()]),
        "PGS ODS second First fragment for an open object_id"
    );
    assert_eq!(
        join(&[whole.clone(), whole.clone()]),
        "PGS ODS duplicate object_id within a Display Set"
    );
    assert_eq!(
        join(&[last.clone()]),
        "PGS ODS continuation fragment with no open object_id"
    );
    assert_eq!(
        join(&[whole, last.clone()]),
        "PGS ODS continuation after the chain was already closed"
    );
    assert_eq!(join(&[first]), "PGS ODS object chain never received a Last fragment");
    assert_eq!(
        join(&[fragment(0xC0, 3, &[])]),
        "PGS ODS object_data_length shorter than the 4 dimension bytes"
    );
    assert_eq!(
        join(&[fragment(0x80, 9, &[7]), last]),
        "PGS ODS reassembled RLE length disagrees with object_data_length"
    );
}

#[test]
fn bitmaps_say_where_they_break() {
    let refused = |data: &[u8], w: u16, h: u16| malformed(decode_rle(data, w, h));
    assert_eq!(refused(&[0], 1, 1), "PGS RLE truncated after escape");
    assert_eq!(refused(&[0, 0x40], 1, 1), "PGS RLE truncated long run");
    assert_eq!(refused(&[0, 0x81], 1, 1), "PGS RLE truncated short colour run");
    assert_eq!(refused(&[0, 0xC0, 1], 1, 1), "PGS RLE truncated long colour run");
    assert_eq!(refused(&[1, 1], 1, 1), "PGS RLE run overruns object width");
    assert_eq!(refused(&[1, 0, 0], 2, 1), "PGS RLE short scanline");
    assert_eq!(refused(&[1, 0, 0, 1, 0, 0], 1, 1), "PGS RLE too many scanlines");
    assert_eq!(refused(&[1], 2, 1), "PGS RLE trailing partial scanline");
    assert_eq!(refused(&[1, 0, 0], 1, 2), "PGS RLE scanline count mismatch");
}

#[test]
fn a_picture_says_why_it_is_not_drawn() {
    let draw = |composition: Vec<u8>, object: Vec<u8>| {
        let stream = [composition, object, segment(0x80, &[])].concat();
        malformed(parse_display_sets(&stream).unwrap()[0].render())
    };
    let shows_two = segment(
        0x16,
        &[0, 8, 0, 8, 0x10, 0, 0, 0x80, 0, 0, 1, 0, 2, 0, 0, 0, 0, 0, 0],
    );
    assert_eq!(
        draw(shows_two, fragment(0xC0, 5, &[7])),
        "PGS composition object references an object_id absent from the Display Set"
    );
    assert_eq!(draw(composition(), fragment(0xC0, 5, &[0])), "PGS RLE truncated after escape");
    assert_eq!(
        draw(composition(), fragment(0x80, 5, &[7])),
        "PGS ODS object chain never received a Last fragment"
    );
}
