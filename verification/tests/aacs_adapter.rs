//! Keys of protected discs.
use bluray::aacs_adapter::cache::{scan_keydb_for_line, write_vuk_cache_entry};
use bluray::aacs_adapter::cascade::{
    cascade_step, entry_from_env, env_needs_drive, resolve_aacs_entry, try_online_vuk,
    CascadeAction, CascadeEvent, EnvValues, ResolvedSource,
};
use bluray::aacs_adapter::AacsDecryptor;
use bluray::aacs_adapter::decryptor::{
    apply_entry_to_volume, find_first_m2ts, looks_like_bdav_ts, trial_decrypt, verified_decryptor,
};
use bluray::aacs_adapter::key_block::check_counts;
use bluray::aacs_adapter::key_line::{
    device_keys_of, hex_id, key_line, line_names_disc, parse_hex16_env, parse_single_keydb_line,
    KeyDbEntry,
};
use bluray::aacs_adapter::keys::{
    device_key_from_record, disc_id_of, CpsUnit, DeviceKeyRecord, DiscKeys,
};
use bluray::aacs_adapter::places::{cache_place, keydb_candidates, SearchEnv};
use bluray::aacs_adapter::resolve::{try_resolve_aacs, KeyPlaces};
use bluray::date::{civil_from_unix, rfc3339};
use bluray::decrypt::{StreamDecryptor, AACS_UNIT_LEN};
use bluray::drive::{read_volume_id, volume_id_override, DriveError};

fn entry(disc_id: [u8; 20], vuk: [u8; 16]) -> KeyDbEntry {
    KeyDbEntry { disc_id, vuk, label: None, unit_keys: Vec::new() }
}

fn record(tag: u8, body: &[u8]) -> Vec<u8> {
    let length = 4 + body.len();
    let mut out = vec![tag, (length >> 16) as u8, (length >> 8) as u8, length as u8];
    out.extend_from_slice(body);
    out
}

/// A media key block with one subset difference.
fn media_key_block(u_mask: u8, uv: u32, enc_km: &[u8; 16], verify: &[u8; 16]) -> Vec<u8> {
    let mut tv = 0x0003_1003u32.to_be_bytes().to_vec();
    tv.extend_from_slice(&1u32.to_be_bytes());
    let mut sd = vec![u_mask];
    sd.extend_from_slice(&uv.to_be_bytes());
    let mut out = record(0x10, &tv);
    out.extend(record(0x81, verify));
    out.extend(record(0x04, &sd));
    out.extend(record(0x05, enc_km));
    out.extend(record(0x02, &[0u8; 40]));
    out
}

/// A unit key file with the given encrypted keys.
fn unit_key_file(keys: &[[u8; 16]]) -> Vec<u8> {
    let start: u32 = 0x80;
    let mut out = vec![0u8; start as usize];
    out[0..4].copy_from_slice(&start.to_be_bytes());
    out[16] = 0x01;
    out[17] = 0x01;
    out[20..22].copy_from_slice(&1u16.to_be_bytes());
    out[22..24].copy_from_slice(&1u16.to_be_bytes());
    out.extend_from_slice(&(keys.len() as u16).to_be_bytes());
    out.extend_from_slice(&[0u8; 14]);
    for key in keys {
        out.extend_from_slice(&[0u8; 32]);
        out.extend_from_slice(key);
    }
    out
}

/// A unit of 32 source packets.
fn transport_unit() -> Vec<u8> {
    let mut unit: Vec<u8> = (0..AACS_UNIT_LEN).map(|i| (i % 251) as u8).collect();
    for p in 0..32 {
        unit[p * 192 + 4] = 0x47;
    }
    unit
}

fn counting_key() -> [u8; 16] {
    let mut key = [0u8; 16];
    for i in 0..16 {
        key[i] = i as u8;
    }
    key
}

const PLAIN: [u8; 16] = [
    0x00, 0x11, 0x22, 0x33, 0x44, 0x55, 0x66, 0x77, 0x88, 0x99, 0xAA, 0xBB, 0xCC, 0xDD, 0xEE, 0xFF,
];

/// `PLAIN` under the counting key.
const CIPHER: [u8; 16] = [
    0x69, 0xC4, 0xE0, 0xD8, 0x6A, 0x7B, 0x04, 0x30, 0xD8, 0xCD, 0xB7, 0x80, 0x70, 0xB4, 0xC5, 0x5A,
];

#[test]
fn cache_roundtrip_parses_back_via_keydb() {
    let disc_id = [0xAAu8; 20];
    let vuk = [0x42u8; 16];
    let mut cache: Vec<String> = Vec::new();
    write_vuk_cache_entry(&mut cache, &disc_id, &vuk, "online", 1_779_712_496);
    assert_eq!(
        cache[0],
        format!("{} = V {} | online-2026-05-25T12:34:56Z", "AA".repeat(20), "42".repeat(16))
    );

    let at = scan_keydb_for_line(&cache, &disc_id).expect("hit");
    let entry = parse_single_keydb_line(&cache[at]).expect("parse");
    assert_eq!(entry.disc_id, disc_id);
    assert_eq!(entry.vuk, vuk);
    assert_eq!(entry.label.as_deref(), Some("online-2026-05-25T12:34:56Z"));
}

#[test]
fn cache_write_is_idempotent_per_disc_id() {
    let disc_id = [0xCDu8; 20];
    let vuk = [0x11u8; 16];
    let mut cache: Vec<String> = Vec::new();
    write_vuk_cache_entry(&mut cache, &disc_id, &vuk, "online", 1_779_712_496);
    write_vuk_cache_entry(&mut cache, &disc_id, &vuk, "online", 1_779_712_497);

    let lines = cache.iter().filter(|l| !l.trim().is_empty()).count();
    assert_eq!(lines, 1, "duplicate line should not be appended");
}

#[test]
fn cache_miss_for_different_disc_id_returns_none() {
    let cache = vec![
        "11223344556677889900AABBCCDDEEFF11223344 = V 00112233445566778899AABBCCDDEEFF | seed"
            .to_string(),
    ];
    let target = [0xFFu8; 20];
    assert!(scan_keydb_for_line(&cache, &target).is_none());
}

#[test]
fn the_cache_keeps_what_it_says_of_other_discs() {
    let mut cache = vec!["; a comment".to_string(), String::new()];
    write_vuk_cache_entry(&mut cache, &[1u8; 20], &[5u8; 16], "online", 0);
    write_vuk_cache_entry(&mut cache, &[2u8; 20], &[6u8; 16], "online", 0);
    write_vuk_cache_entry(&mut cache, &[1u8; 20], &[7u8; 16], "online", 0);
    assert_eq!(cache.len(), 4);
    assert_eq!(scan_keydb_for_line(&cache, &[1u8; 20]), Some(2));
    assert_eq!(scan_keydb_for_line(&cache, &[2u8; 20]), Some(3));
    let first = parse_single_keydb_line(&cache[2]).expect("parse");
    assert_eq!(first.vuk, [5u8; 16]);
}

#[test]
fn civil_from_unix_anchors() {
    assert_eq!(civil_from_unix(0), (1970, 1, 1, 0, 0, 0));
    // 2000-01-01 00:00:00 UTC = 946684800 seconds.
    assert_eq!(civil_from_unix(946_684_800), (2000, 1, 1, 0, 0, 0));
    // 2026-05-25 12:34:56 UTC = 1779712496 seconds.
    let (y, mo, d, h, mi, s) = civil_from_unix(1_779_712_496);
    assert_eq!((y, mo, d, h, mi, s), (2026, 5, 25, 12, 34, 56));
}

#[test]
fn rfc3339_now_is_well_formed() {
    let now = std::time::SystemTime::now()
        .duration_since(std::time::UNIX_EPOCH)
        .map(|d| d.as_secs())
        .unwrap_or(0);
    let s = rfc3339(now);
    // YYYY-MM-DDTHH:MM:SSZ, 20 characters.
    assert_eq!(s.len(), 20);
    assert!(s.ends_with('Z'));
    assert_eq!(&s[4..5], "-");
    assert_eq!(&s[7..8], "-");
    assert_eq!(&s[10..11], "T");
    assert_eq!(&s[13..14], ":");
    assert_eq!(&s[16..17], ":");
}

#[test]
fn rfc3339_of_known_moments() {
    assert_eq!(rfc3339(0), "1970-01-01T00:00:00Z");
    assert_eq!(rfc3339(1_779_712_496), "2026-05-25T12:34:56Z");
    // The last second of a leap day.
    assert_eq!(rfc3339(951_868_799), "2000-02-29T23:59:59Z");
    assert_eq!(rfc3339(951_868_800), "2000-03-01T00:00:00Z");
}

#[test]
fn device_key_from_record_preserves_uv_and_mask_fields() {
    let rec = DeviceKeyRecord {
        device_key: [0x33u8; 16],
        device_node: [0x12, 0x34],
        // 0x0000_0400: uv = 1024, ten zero bits at the low end.
        key_uv: [0x00, 0x00, 0x04, 0x00],
        key_u_mask_shift: 23,
        comment: None,
    };
    let dk = device_key_from_record(&rec).expect("conversion");
    assert_eq!(dk.key, [0x33u8; 16]);
    assert_eq!(dk.uv, 0x0000_0400);
    assert_eq!(dk.u_mask_zero_bits, 23);
    assert_eq!(dk.v_mask_zero_bits, 10);
}

#[test]
fn disc_id_is_the_digest_of_the_unit_key_file() {
    assert_eq!(hex_id(&disc_id_of(b"abc")), "A9993E364706816ABA3E25717850C26C9CD0D89D");
}

#[test]
fn key_lines_name_their_disc() {
    let mut id = [0u8; 20];
    for i in 0..20 {
        id[i] = 0xA0 + i as u8;
    }
    let line = key_line(&id, &PLAIN, "online", "2026-05-25T12:34:56Z");
    assert_eq!(
        line,
        "A0A1A2A3A4A5A6A7A8A9AAABACADAEAFB0B1B2B3 = V 00112233445566778899AABBCCDDEEFF \
         | online-2026-05-25T12:34:56Z"
    );
    assert!(line_names_disc(&line, &id));
    assert!(line_names_disc(&line.to_lowercase(), &id));
    assert!(line_names_disc(&format!("  0x{line}"), &id));
    assert!(!line_names_disc(&line, &[0xA0u8; 20]));
    assert!(!line_names_disc("", &id));
    assert!(parse_single_keydb_line("; nothing but a comment").is_none());
}

#[test]
fn device_keys_come_out_of_the_key_file() {
    let text = "| DK | DEVICE_KEY 0x000102030405060708090A0B0C0D0E0F | DEVICE_NODE 0x0800 \
                | KEY_UV 0x00000400 | KEY_U_MASK_SHIFT 0x17\n";
    let keys = device_keys_of(text);
    assert_eq!(keys.len(), 1);
    assert_eq!(keys[0].device_key, counting_key());
    assert_eq!(keys[0].device_node, [0x08, 0x00]);
    assert_eq!(keys[0].key_uv, [0, 0, 4, 0]);
    assert_eq!(keys[0].key_u_mask_shift, 0x17);
    assert!(device_keys_of("").is_empty());
}

#[test]
fn supplied_values_tolerate_prefix_and_space() {
    let want = Some(PLAIN);
    assert_eq!(parse_hex16_env("00112233445566778899AABBCCDDEEFF"), want);
    assert_eq!(parse_hex16_env("  0x00112233445566778899aabbccddeeff\n"), want);
    assert_eq!(parse_hex16_env("00112233445566778899AABBCCDDEEF"), None);
    assert_eq!(parse_hex16_env("00112233445566778899AABBCCDDEEFG"), None);
}

#[test]
fn volume_identifier_override() {
    assert_eq!(
        volume_id_override("0X00112233445566778899aabbccddeeff").expect("well formed"),
        PLAIN
    );
    assert!(matches!(
        volume_id_override("0xnonsense"),
        Err(DriveError::BadEnvOverride(s)) if s == "nonsense"
    ));
    assert!(matches!(read_volume_id(None), Err(DriveError::Unimplemented)));
    assert_eq!(
        read_volume_id(Some("00112233445566778899AABBCCDDEEFF")).expect("well formed"),
        PLAIN
    );
}

#[test]
fn supplied_volume_key_comes_first() {
    let values = EnvValues {
        vuk: Some("00112233445566778899AABBCCDDEEFF".into()),
        media_key: Some("FF".into()),
        volume_id: None,
    };
    assert!(!env_needs_drive(&values));
    let e = entry_from_env(&[1u8; 20], &values, None).expect("entry");
    assert_eq!(e.vuk, PLAIN);
    assert_eq!(e.label.as_deref(), Some("OXIDEAV_AACS_VUK env override"));
}

#[test]
fn supplied_media_key_needs_an_identifier() {
    let values = EnvValues {
        vuk: None,
        media_key: Some("000102030405060708090A0B0C0D0E0F".into()),
        volume_id: None,
    };
    assert!(env_needs_drive(&values));
    assert!(entry_from_env(&[1u8; 20], &values, None).is_none());
    let e = entry_from_env(&[1u8; 20], &values, Some(CIPHER)).expect("entry");
    // Decrypting the identifier gives PLAIN, which is mixed with it again.
    let mut want = PLAIN;
    for i in 0..16 {
        want[i] ^= CIPHER[i];
    }
    assert_eq!(e.vuk, want);
    assert_eq!(e.label.as_deref(), Some("OXIDEAV_AACS_MEDIA_KEY env override"));
}

#[test]
fn unit_keys_are_unwrapped_with_the_volume_key() {
    let mkb = media_key_block(12, 0x200, &[0u8; 16], &[0u8; 16]);
    let file = unit_key_file(&[CIPHER, [7u8; 16]]);
    let mut volume = DiscKeys::open(&mkb, &file).expect("both files are valid");
    assert_eq!(volume.cps_units.len(), 2);
    assert_eq!(volume.cps_units[0].id, 1);
    assert_eq!(volume.cps_units[0].encrypted_title_key, CIPHER);
    assert_eq!(volume.cps_units[1].encrypted_title_key, [7u8; 16]);
    assert_eq!(volume.cps_units[0].title_key, None);

    let mut e = entry([0u8; 20], counting_key());
    apply_entry_to_volume(&e, &mut volume);
    assert_eq!(volume.cps_units[0].title_key, Some(PLAIN));
    assert!(volume.cps_units[1].title_key.is_some());

    // Unit keys of the entry count instead of its volume key.
    let mut volume = DiscKeys::open(&mkb, &file).expect("both files are valid");
    e.unit_keys = vec![(2, [9u8; 16])];
    apply_entry_to_volume(&e, &mut volume);
    assert_eq!(volume.cps_units[0].title_key, None);
    assert_eq!(volume.cps_units[1].title_key, Some([9u8; 16]));

    assert!(DiscKeys::open(&[], &file).is_none());
    assert!(DiscKeys::open(&mkb, &[0u8; 3]).is_none());
}

#[test]
fn a_fitting_key_gives_a_decryptor() {
    let title_key = [0x99u8; 16];
    let plain = transport_unit();
    let cipher = oxideav_aacs::encrypt_aligned_unit(&title_key, &plain).expect("whole unit");
    assert!(looks_like_bdav_ts(&plain));
    assert!(!looks_like_bdav_ts(&cipher));
    assert!(!looks_like_bdav_ts(&plain[..192]));

    let unit = CpsUnit { id: 1, encrypted_title_key: [0u8; 16], title_key: None };
    let volume = DiscKeys { mkb: Vec::new(), cps_units: vec![unit] };
    let mut e = entry([0u8; 20], [1u8; 16]);
    e.unit_keys = vec![(1, title_key)];
    let mut d = verified_decryptor(volume, &e, &cipher).expect("the key fits");
    assert_eq!(trial_decrypt(&d.volume, &cipher), Some(0));

    let mut buf = cipher.to_vec();
    buf.extend_from_slice(&cipher);
    assert!(d.decrypt_units(&mut buf, 0).is_ok());
    assert_eq!(&buf[..AACS_UNIT_LEN], &plain[..]);
    assert_eq!(&buf[AACS_UNIT_LEN..], &plain[..]);
    let mut short = vec![0u8; 100];
    assert!(d.decrypt_units(&mut short, 0).is_err());
    assert_eq!(short, vec![0u8; 100]);

    let unit = CpsUnit { id: 1, encrypted_title_key: [0u8; 16], title_key: None };
    let volume = DiscKeys { mkb: Vec::new(), cps_units: vec![unit] };
    assert!(verified_decryptor(volume, &entry([0u8; 20], [1u8; 16]), &cipher).is_none());
}

#[test]
fn a_device_key_opens_the_disc() {
    let device_key = [0xA5u8; 16];
    let uv: u32 = 0x200;
    let km = [0x5Au8; 16];
    let volume_id = [0x77u8; 16];
    let pk = oxideav_aacs::subdiff::aes_g3(&device_key).processing_key;
    let mut masked = km;
    for (i, b) in uv.to_be_bytes().iter().enumerate() {
        masked[12 + i] ^= b;
    }
    let enc_km = oxideav_aacs::aes::aes_128_ecb_encrypt(&pk, &masked);
    let verify = [0x01, 0x23, 0x45, 0x67, 0x89, 0xAB, 0xCD, 0xEF, 0, 0, 0, 0, 0, 0, 0, 0];
    let vd = oxideav_aacs::aes::aes_128_ecb_encrypt(&km, &verify);
    let mkb = media_key_block(12, uv, &enc_km, &vd);

    let stranger = DeviceKeyRecord {
        device_key: [0u8; 16],
        device_node: [0, 0],
        key_uv: [0x40, 0, 4, 0],
        key_u_mask_shift: 12,
        comment: None,
    };
    let fitting = DeviceKeyRecord {
        device_key,
        device_node: [0, 0],
        key_uv: [0, 0, 4, 0],
        key_u_mask_shift: 12,
        comment: None,
    };
    let vuk = try_online_vuk(&mkb, &vec![stranger.clone(), fitting], &volume_id);
    let want = oxideav_aacs::derive_vuk(&km, &volume_id);
    assert_eq!(vuk, Some(*want.as_bytes()));
    assert_eq!(try_online_vuk(&mkb, &vec![stranger], &volume_id), None);
    assert_eq!(try_online_vuk(&mkb, &Vec::new(), &volume_id), None);
}

#[test]
fn the_first_place_with_a_key_ends_the_search() {
    let id = [0xAAu8; 20];
    let line = key_line(&id, &PLAIN, "online", "now");
    let found = resolve_aacs_entry(&id, None, Some("garbage".into()), Some(line.clone()), None)
        .expect("the cache has it");
    assert_eq!(found.source, ResolvedSource::Cache);
    assert_eq!(found.source.label(), "local VUK cache");
    assert_eq!(found.entry.vuk, PLAIN);

    let found = resolve_aacs_entry(&id, None, None, None, Some(CIPHER)).expect("the disc has it");
    assert_eq!(found.source, ResolvedSource::Online);
    assert_eq!(found.entry.label.as_deref(), Some("online-derived"));
    assert!(resolve_aacs_entry(&id, None, None, None, None).is_none());

    let e = entry(id, CIPHER);
    let found = resolve_aacs_entry(&id, Some(e), Some(line), None, None).expect("supplied");
    assert_eq!(found.source, ResolvedSource::EnvOverride);
}

#[test]
fn the_search_goes_from_place_to_place() {
    let id = [0xAAu8; 20];
    assert_eq!(
        cascade_step(&id, CascadeEvent::Env(None)),
        CascadeAction::Try(ResolvedSource::Keydb)
    );
    assert_eq!(
        cascade_step(&id, CascadeEvent::Keydb(None)),
        CascadeAction::Try(ResolvedSource::Cache)
    );
    assert_eq!(
        cascade_step(&id, CascadeEvent::Cache(None)),
        CascadeAction::Try(ResolvedSource::Online)
    );
    assert_eq!(cascade_step(&id, CascadeEvent::Online(None)), CascadeAction::Exhausted);
}

#[test]
fn key_file_places_in_order() {
    let env = SearchEnv {
        keydb: Some("/given".into()),
        cache: None,
        home: Some("/home/me".into()),
        config_home: Some("/cfg".into()),
        config_dirs: Some("/etc/xdg::/opt/xdg".into()),
        cache_home: None,
        macos: true,
    };
    let places: Vec<(String, &str)> =
        keydb_candidates(&env).into_iter().map(|p| (p.base, p.below)).collect();
    assert_eq!(
        places,
        vec![
            ("/given".to_string(), ""),
            ("/home/me".to_string(), "Library/Preferences/aacs/KEYDB.cfg"),
            ("/cfg".to_string(), "aacs/KEYDB.cfg"),
            ("/etc/xdg".to_string(), "aacs/KEYDB.cfg"),
            ("/opt/xdg".to_string(), "aacs/KEYDB.cfg"),
            ("/home/me".to_string(), ".config/aacs/KEYDB.cfg"),
        ]
    );
    let p = cache_place(&env);
    assert_eq!((p.base.as_str(), p.below), ("/home/me", ".cache/oxideav/vuk-cache.cfg"));
}

#[test]
fn the_first_clip_by_name() {
    let names: Vec<String> =
        ["00010.m2ts", "readme.txt", "00002.m2ts", ".m2ts"].iter().map(|s| s.to_string()).collect();
    assert_eq!(find_first_m2ts(&names), Some(2));
    assert_eq!(find_first_m2ts(&vec!["00002.clpi".to_string()]), None);
}

#[test]
fn a_disc_resolves_from_its_files_to_a_decryptor() {
    let vuk = [0x31u8; 16];
    let title_key = [0x99u8; 16];
    let keys = unit_key_file(&[oxideav_aacs::aes::aes_128_ecb_encrypt(&vuk, &title_key)]);
    let mkb = media_key_block(12, 0x200, &[1u8; 16], &[2u8; 16]);
    let plain = transport_unit();
    let sample = oxideav_aacs::encrypt_aligned_unit(&title_key, &plain).expect("whole unit");
    let id = disc_id_of(&keys);
    let nothing = KeyPlaces {
        env: EnvValues { vuk: None, media_key: None, volume_id: None },
        volume_id: None,
        keydb_line: None,
        cache_line: None,
        keydb: None,
    };
    assert!(try_resolve_aacs(&keys, &mkb, nothing.clone(), &sample).is_none());

    let mut cached = nothing.clone();
    cached.cache_line = Some(key_line(&id, &vuk, "online", "now"));
    let (mut d, found) =
        try_resolve_aacs(&keys, &mkb, cached.clone(), &sample).expect("the cache has it");
    assert_eq!((found.source, found.entry.vuk), (ResolvedSource::Cache, vuk));
    let mut buf = sample.to_vec();
    assert!(d.decrypt_units(&mut buf, 0).is_ok());
    assert_eq!(buf, plain);

    // A key that does not fit is no key, and nothing else is tried.
    let mut wrong = cached.clone();
    wrong.keydb_line = Some(key_line(&id, &[0x32u8; 16], "note", "now"));
    assert!(try_resolve_aacs(&keys, &mkb, wrong, &sample).is_none());
    // Neither do malformed files resolve.
    let mut revoked = mkb.clone();
    revoked.extend(record(0x20, &[0, 0, 0, 0, 0x20, 0, 0, 0]));
    assert!(try_resolve_aacs(&keys, &revoked, cached.clone(), &sample).is_none());
    assert!(try_resolve_aacs(&keys[..100], &mkb, cached.clone(), &sample).is_none());
    assert!(try_resolve_aacs(&keys, &[], cached, &sample).is_none());
}

/// A media key block whose only list of revoked devices is `list`.
fn block_with_list(tag: u8, list: &[u8]) -> Vec<u8> {
    let mut out = record(0x10, &[0x00, 0x03, 0x10, 0x03, 0, 0, 0, 1]);
    out.extend(record(tag, list));
    out
}

#[test]
fn a_count_that_is_too_large_is_refused() {
    let file = unit_key_file(&[CIPHER]);
    let count = |n: u32| {
        let mut list = vec![0u8; 4];
        list.extend_from_slice(&n.to_be_bytes());
        list
    };
    for tag in [0x20, 0x21] {
        let mkb = block_with_list(tag, &count(0x2000_0000));
        assert_eq!(mkb.len(), 24);
        assert!(!check_counts(&mkb));
        assert!(DiscKeys::open(&mkb, &file).is_none());
        let device = DeviceKeyRecord {
            device_key: [0u8; 16],
            device_node: [0, 0],
            key_uv: [0, 0, 4, 0],
            key_u_mask_shift: 12,
            comment: None,
        };
        assert_eq!(try_online_vuk(&mkb, &vec![device], &[0u8; 16]), None);
        // The entries end at the last place that 32 bits can hold, or behind it.
        assert!(!check_counts(&block_with_list(tag, &count(0x1FFF_FFFF))));
        let mkb = block_with_list(tag, &count(0x1FFF_FFFE));
        assert!(check_counts(&mkb));
        assert!(DiscKeys::open(&mkb, &file).is_none());
        // A list without entries is well formed.
        let mkb = block_with_list(tag, &count(0));
        assert!(check_counts(&mkb));
        assert!(DiscKeys::open(&mkb, &file).is_some());
    }
    // The same bytes in another record are no count.
    let mkb = block_with_list(0x2F, &count(0x2000_0000));
    assert!(check_counts(&mkb));
    assert!(DiscKeys::open(&mkb, &file).is_some());
}

#[test]
fn counts_are_found_behind_other_groups_and_records() {
    let file = unit_key_file(&[CIPHER]);
    // One entry and its signature, then a second group.
    let group = |n: u32| {
        let mut list = vec![0, 0, 0, 1, 0, 0, 0, 1];
        list.extend_from_slice(&[7u8; 8 + 40]);
        list.extend_from_slice(&n.to_be_bytes());
        list
    };
    assert!(check_counts(&block_with_list(0x21, &group(0))));
    assert!(DiscKeys::open(&block_with_list(0x21, &group(0)), &file).is_some());
    assert!(!check_counts(&block_with_list(0x21, &group(0x4000_0000))));
    // A list that is cut off within the signature ends there.
    let mut cut = group(0x4000_0000);
    cut.truncate(8 + 8 + 39);
    assert!(check_counts(&block_with_list(0x21, &cut)));
    assert!(DiscKeys::open(&block_with_list(0x21, &cut), &file).is_some());

    // A second list.
    let mut mkb = block_with_list(0x21, &group(0));
    mkb.extend(record(0x20, &[0, 0, 0, 0, 0x20, 0, 0, 0]));
    assert!(!check_counts(&mkb));
    assert!(DiscKeys::open(&mkb, &file).is_none());
    // Behind a record without a length there is nothing more.
    let mut mkb = block_with_list(0x21, &group(0));
    mkb.extend_from_slice(&[0, 0, 0, 0]);
    mkb.extend(record(0x20, &[0, 0, 0, 0, 0x20, 0, 0, 0]));
    assert!(check_counts(&mkb));
    assert!(DiscKeys::open(&mkb, &file).is_none());
    assert!(check_counts(&[]));
    assert!(check_counts(&[0x20, 0, 0]));
}

#[test]
fn a_decryptor_says_why_it_refuses() {
    let refusal = |cps_units: Vec<CpsUnit>, len: usize| {
        let mut d = AacsDecryptor { volume: DiscKeys { mkb: Vec::new(), cps_units } };
        d.decrypt_units(&mut vec![0u8; len], 0).map_err(|e| e.to_string())
    };
    let bare = CpsUnit { id: 1, encrypted_title_key: [0u8; 16], title_key: None };
    assert_eq!(
        refusal(vec![], 100),
        Err("AacsDecryptor: buffer length 100 is not a multiple of 6144".to_string())
    );
    assert_eq!(refusal(vec![], 6144), Err("AACS volume has no CPS Units".to_string()));
    assert_eq!(
        refusal(vec![bare.clone()], 6144),
        Err("invalid CPS Unit title key (not yet unwrapped) value: 1".to_string())
    );
    assert_eq!(refusal(vec![bare], 0), Ok(()));
}

const ID: &str = "11223344556677889900AABBCCDDEEFF11223344";
const KEY: &str = "00112233445566778899AABBCCDDEEFF";

#[test]
fn a_line_that_would_be_cut_within_a_character_is_none() {
    // Behind V, of 32 bytes, with a character across a pair of bytes.
    let value = format!("0\u{e9}{}", "0".repeat(29));
    assert_eq!(value.len(), 32);
    let line = format!("{ID} = V {value}");
    assert!(line_names_disc(&line, &parse_id(ID)));
    assert!(parse_single_keydb_line(&line).is_none());
    assert!(parse_single_keydb_line(&format!("{ID} = V | 0x{value} | note")).is_none());
    // Behind U and a hyphen.
    assert!(parse_single_keydb_line(&format!("{ID} = V {KEY} | U 1-{value}")).is_none());
    assert!(parse_single_keydb_line(&format!("{ID} = V {KEY} | U 1-{KEY} | 2-0x{value}")).is_none());
    // In the identifier, of 40 bytes.
    let id = format!("0\u{e9}{}", "0".repeat(37));
    assert_eq!(id.len(), 40);
    assert!(parse_single_keydb_line(&format!("{id} = V {KEY}")).is_none());
    // A character of three bytes at the start of a pair.
    let wide = format!("00\u{3042}{}", "0".repeat(27));
    assert_eq!(wide.len(), 32);
    assert!(parse_single_keydb_line(&format!("{ID} = V {wide}")).is_none());
}

#[test]
fn other_characters_do_not_keep_a_line_from_being_read() {
    // A note is not taken apart, whatever its length.
    let note = format!("0\u{e9}{}", "0".repeat(29));
    let e = parse_single_keydb_line(&format!("{ID} = V {KEY} | {note}")).expect("reads");
    assert_eq!(e.label.as_deref(), Some(note.as_str()));
    let e = parse_single_keydb_line(&format!("{ID} = \u{c9}t\u{e9} | V | 0x{KEY} ; \u{e9}"))
        .expect("reads");
    assert_eq!(e.label.as_deref(), Some("\u{c9}t\u{e9}"));
    assert_eq!(e.disc_id, parse_id(ID));
    // Digits that are none end the reading before the character is reached.
    let odd = format!("zz0\u{e9}{}", "0".repeat(27));
    assert_eq!(odd.len(), 32);
    assert!(parse_single_keydb_line(&format!("{ID} = V {odd}")).is_none());
    // So does a value of another length.
    assert!(parse_single_keydb_line(&format!("{ID} = V 0\u{e9}")).is_none());
    // A unit key is dropped, and the line stays.
    let e = parse_single_keydb_line(&format!("{ID} = V {KEY} | U 1-{KEY} | 2-0\u{e9}"))
        .expect("reads");
    assert_eq!(e.unit_keys.len(), 1);
}

#[test]
fn device_keys_are_read_from_the_records_alone() {
    let record = "| DK | DEVICE_KEY 0x00112233445566778899AABBCCDDEEFF | DEVICE_NODE 0x0800 \
                  | KEY_UV 0x00000400 | KEY_U_MASK_SHIFT 0x17 ; \u{e9}";
    let bad = format!("0\u{e9}{} = V {KEY}", "0".repeat(37));
    let text = format!("; \u{e9}\n{bad}\n  {record}\r\n\n{ID} = V 0\u{e9}{}\n", "0".repeat(29));
    let keys = device_keys_of(&text);
    assert_eq!(keys.len(), 1);
    assert_eq!(keys[0].key_u_mask_shift, 0x17);
    assert_eq!(keys[0].comment.as_deref(), Some("\u{e9}"));
}

fn parse_id(hex: &str) -> [u8; 20] {
    let mut id = [0u8; 20];
    for i in 0..20 {
        id[i] = u8::from_str_radix(&hex[2 * i..2 * i + 2], 16).expect("digits");
    }
    id
}
