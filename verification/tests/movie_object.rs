//! Movie objects.
use bluray::bdmv::movie_object::{MovieObject, MovieObjects, NavCommand};

#[test]
fn round_trip_empty() {
    let mo = MovieObjects {
        version: *b"0200",
        movie_objects: vec![],
    };
    let bytes = mo.encode();
    let parsed = MovieObjects::parse(&bytes).unwrap();
    assert!(parsed.movie_objects.is_empty());
}

#[test]
fn round_trip_three_objects() {
    let mo = MovieObjects {
        version: *b"0200",
        movie_objects: vec![
            MovieObject {
                resume_intention_flag: 1,
                menu_call_mask: 0,
                title_search_mask: 1,
                commands: vec![NavCommand { bytes: [0x12; 12] }],
            },
            MovieObject {
                resume_intention_flag: 0,
                menu_call_mask: 1,
                title_search_mask: 0,
                commands: vec![],
            },
            MovieObject {
                resume_intention_flag: 1,
                menu_call_mask: 1,
                title_search_mask: 1,
                commands: vec![
                    NavCommand { bytes: [0x01; 12] },
                    NavCommand { bytes: [0xFF; 12] },
                ],
            },
        ],
    };
    let bytes = mo.encode();
    let parsed = MovieObjects::parse(&bytes).unwrap();
    assert_eq!(parsed.movie_objects, mo.movie_objects);
}

/// Build a NavCommand from three big-endian words.
fn nav(word0: u32, word1: u32, word2: u32) -> NavCommand {
    let mut bytes = [0u8; 12];
    bytes[0..4].copy_from_slice(&word0.to_be_bytes());
    bytes[4..8].copy_from_slice(&word1.to_be_bytes());
    bytes[8..12].copy_from_slice(&word2.to_be_bytes());
    NavCommand { bytes }
}

#[test]
fn nav_command_disassemble() {
    // JumpTitle 1.
    assert_eq!(nav(0x2181_0000, 1, 0).disassemble(), "JumpTitle 0x1");
}

#[test]
fn movie_object_disassemble_listing() {
    let mo = MovieObject {
        resume_intention_flag: 1,
        menu_call_mask: 0,
        title_search_mask: 1,
        commands: vec![
            nav(0x5040_0001, 0x0000_0001, 0x0000_0001), // Move r1, 0x1
            nav(0x2181_0000, 0x0000_0002, 0),           // JumpTitle 0x2
        ],
    };
    let listing = mo.disassemble(0);
    // Each command line is `\n` + two-space indent + a 3-wide
    // right-aligned index + ": " + the disassembly.
    let expected = "MovieObject[0] (resume=1, menu_mask=0, title_mask=1, 2 cmds)\n    \
                    0: Move r1, 0x1\n    \
                    1: JumpTitle 0x2";
    assert_eq!(listing, expected);
}

#[test]
fn movie_object_singular_count_label() {
    let mo = MovieObject {
        resume_intention_flag: 0,
        menu_call_mask: 0,
        title_search_mask: 0,
        commands: vec![nav(0x0000_0000, 0, 0)], // Nop
    };
    let listing = mo.disassemble(3);
    assert!(listing.starts_with("MovieObject[3] (resume=0, menu_mask=0, title_mask=0, 1 cmd)"));
    assert!(listing.contains("\n    0: Nop"));
}

#[test]
fn movie_objects_table_disassemble() {
    let mo = MovieObjects {
        version: *b"0200",
        movie_objects: vec![
            MovieObject {
                resume_intention_flag: 0,
                menu_call_mask: 0,
                title_search_mask: 0,
                commands: vec![nav(0x0203_0000, 0, 0)], // TerminatePL
            },
            MovieObject {
                resume_intention_flag: 0,
                menu_call_mask: 0,
                title_search_mask: 0,
                commands: vec![],
            },
        ],
    };
    let dump = mo.disassemble();
    assert!(dump.starts_with("MovieObject.bdmv version=0200 (2 objects)"));
    assert!(dump.contains("MovieObject[0]"));
    assert!(dump.contains("0: TerminatePL"));
    assert!(dump.contains("MovieObject[1] (resume=0, menu_mask=0, title_mask=0, 0 cmds)"));
}

#[test]
fn movie_object_rejects_wrong_type_indicator() {
    let mut bytes = MovieObjects {
        version: *b"0200",
        movie_objects: vec![],
    }
    .encode();
    bytes[0] = b'X';
    assert!(MovieObjects::parse(&bytes).is_err());
}
