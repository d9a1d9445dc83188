//! The title catalogue.
use bluray::bdmv::index_bdmv::{AppInfoBdmv, IndexBdmv, IndexEntry, IndexObjectType};

fn sample_index() -> IndexBdmv {
    IndexBdmv {
        version: *b"0200",
        app_info: AppInfoBdmv {
            initial_output_mode_preference: 0,
            content_exist_flag: 1,
            video_format: 6, // 1080p
            frame_rate: 4,   // 29.97
        },
        first_playback_title: IndexEntry {
            object: IndexObjectType::Hdmv {
                playback_type: 0,
                movie_object_id_ref: 0,
            },
        },
        menu_title: IndexEntry {
            object: IndexObjectType::Hdmv {
                playback_type: 1,
                movie_object_id_ref: 1,
            },
        },
        titles: vec![
            IndexEntry {
                object: IndexObjectType::Hdmv {
                    playback_type: 0,
                    movie_object_id_ref: 2,
                },
            },
            IndexEntry {
                object: IndexObjectType::BdJ {
                    playback_type: 0,
                    bdjo_file_name: "00000".into(),
                },
            },
        ],
    }
}

#[test]
fn index_bdmv_round_trip() {
    let idx = sample_index();
    let bytes = idx.encode();
    let parsed = IndexBdmv::parse(&bytes).unwrap();
    assert_eq!(parsed.version, idx.version);
    assert_eq!(parsed.app_info, idx.app_info);
    assert_eq!(parsed.first_playback_title, idx.first_playback_title);
    assert_eq!(parsed.menu_title, idx.menu_title);
    assert_eq!(parsed.titles, idx.titles);
}

#[test]
fn index_bdmv_rejects_wrong_type_indicator() {
    let mut bytes = sample_index().encode();
    bytes[0] = b'X';
    assert!(IndexBdmv::parse(&bytes).is_err());
}
