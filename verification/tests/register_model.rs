//! Registers and their meaning.
use bluray::bdmv::register_model::{GPR_COUNT, PSR_COUNT, PsrClass, gpr_convention, psr_info};

#[test]
fn counts_match_doc() {
    assert_eq!(GPR_COUNT, 4096);
    assert_eq!(PSR_COUNT, 128);
}

#[test]
fn named_psrs() {
    assert_eq!(psr_info(3).unwrap().name, "Angle");
    assert_eq!(psr_info(4).unwrap().name, "Title");
    assert_eq!(psr_info(31).unwrap().name, "PlayerProfileVersion");
    assert_eq!(psr_info(0).unwrap().name, "InteractiveGraphics");
}

#[test]
fn psr_classes() {
    // Title is mutable Playback Status.
    assert_eq!(psr_info(4).unwrap().class, PsrClass::PlaybackStatus { read_only: false });
    assert!(!psr_info(4).unwrap().class.is_read_only_to_nav());
    // PresentationTime is read-only Playback Status.
    assert!(psr_info(8).unwrap().class.is_read_only_to_nav());
    // Parental is a Player Setting (read-only to nav).
    assert_eq!(psr_info(13).unwrap().class, PsrClass::PlayerSetting);
    assert!(psr_info(13).unwrap().class.is_read_only_to_nav());
}

#[test]
fn backup_registers() {
    assert_eq!(psr_info(36).unwrap().name, "BackupTitle");
    assert_eq!(psr_info(40).unwrap().name, "BackupPresentationTime");
    assert!(psr_info(40).unwrap().class.is_read_only_to_nav());
}

#[test]
fn reserved_psrs() {
    // 21-28 reserved.
    assert_eq!(psr_info(25).unwrap().name, "reserved");
    assert_eq!(psr_info(25).unwrap().class, PsrClass::Reserved);
    // 96-111 reserved for BD-system use.
    assert_eq!(psr_info(100).unwrap().name, "reserved");
}

#[test]
fn characteristic_text_range() {
    for i in 48..=61 {
        assert_eq!(psr_info(i).unwrap().name, "CharacteristicTextCapability");
        assert_eq!(psr_info(i).unwrap().class, PsrClass::PlayerSetting);
    }
    assert_eq!(psr_info(47).unwrap().name, "reserved");
    assert_eq!(psr_info(62).unwrap().name, "reserved");
}

#[test]
fn psr_out_of_range() {
    assert!(psr_info(128).is_none());
    assert!(psr_info(200).is_none());
    assert!(psr_info(127).is_some());
}

#[test]
fn gpr_conventions() {
    assert_eq!(
        gpr_convention(0).unwrap().conventional_use,
        "free for title programming"
    );
    assert_eq!(
        gpr_convention(4001).unwrap().conventional_use,
        "sound-FX on/off flag"
    );
    assert_eq!(
        gpr_convention(4003).unwrap().conventional_use,
        "3D-mode flag"
    );
    assert_eq!(
        gpr_convention(4005).unwrap().conventional_use,
        "Top Menu pressed flag"
    );
    assert_eq!(
        gpr_convention(4093).unwrap().conventional_use,
        "reserved for BD-J interop"
    );
}

#[test]
fn gpr_bd_j_reach() {
    assert!(!gpr_convention(500).unwrap().bd_j_reachable);
    assert!(gpr_convention(1500).unwrap().bd_j_reachable);
    assert!(gpr_convention(4005).unwrap().bd_j_reachable);
    assert!(!gpr_convention(4006).unwrap().bd_j_reachable);
}

#[test]
fn gpr_out_of_range() {
    assert!(gpr_convention(4096).is_none());
    assert!(gpr_convention(4095).is_some());
}
