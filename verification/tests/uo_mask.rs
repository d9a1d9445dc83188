//! User operation masks.
use bluray::bdmv::uo_mask::{UoMask, UserOperation};

#[test]
fn wire_bit_anchors_match_staged_table() {
    assert_eq!(UserOperation::MenuCall.raw_mask(), 0x8000_0000_0000_0000);
    // angle_number_change is wire bit 23 → 1 << (63 - 23).
    assert_eq!(UserOperation::AngleNumberChange.wire_bit(), 23);
    assert_eq!(UserOperation::AngleNumberChange.raw_mask(), 1u64 << 40);
    // secondary_PG_stream_number_change is wire bit 33.
    assert_eq!(UserOperation::SecondaryPgStreamNumberChange.wire_bit(), 33);
    assert_eq!(
        UserOperation::SecondaryPgStreamNumberChange.raw_mask(),
        1u64 << 30
    );
    // stop sits at wire bit 7 (after the reserved bit 6).
    assert_eq!(UserOperation::Stop.wire_bit(), 7);
}

#[test]
fn from_wire_bit_round_trips_and_rejects_reserved() {
    for op in UserOperation::all() {
        assert_eq!(UserOperation::from_wire_bit(op.wire_bit()), Some(op));
    }
    for reserved in [6u8, 9, 22, 32, 34, 40, 63, 64, 200] {
        assert_eq!(UserOperation::from_wire_bit(reserved), None, "{reserved}");
    }
}

#[test]
fn all_is_ascending_and_covers_thirty_ops() {
    assert_eq!(UserOperation::all().len(), 30);
    for w in UserOperation::all().windows(2) {
        assert!(w[0].wire_bit() < w[1].wire_bit());
    }
    // Assigned bits = 0..=33 minus the four reserved holes.
    let assigned: Vec<u8> = UserOperation::all().iter().map(|o| o.wire_bit()).collect();
    let expect: Vec<u8> = (0u8..=33).filter(|b| ![6, 9, 22, 32].contains(b)).collect();
    assert_eq!(assigned, expect);
}

#[test]
fn prohibit_permit_inverse() {
    let m = UoMask::permit_all()
        .with_prohibited(UserOperation::MenuCall)
        .with_prohibited(UserOperation::AngleNumberChange);
    assert!(m.is_prohibited(UserOperation::MenuCall));
    assert!(m.is_prohibited(UserOperation::AngleNumberChange));
    assert!(m.permits(UserOperation::Stop));
    assert!(!m.permits_all());
    assert_eq!(
        m.prohibited_ops(),
        vec![UserOperation::MenuCall, UserOperation::AngleNumberChange]
    );
    let m2 = m
        .with_permitted(UserOperation::MenuCall)
        .with_permitted(UserOperation::AngleNumberChange);
    assert_eq!(m2, UoMask::permit_all());
    assert!(m2.permits_all());
}

#[test]
fn reserved_bits_detected_and_ignored_by_ops() {
    // Set the four low reserved holes + one deep reserved bit.
    let raw = (1u64 << (63 - 6))
        | (1u64 << (63 - 9))
        | (1u64 << (63 - 22))
        | (1u64 << (63 - 32))
        | (1u64 << (63 - 50));
    let m = UoMask::from_raw(raw);
    assert_eq!(m.reserved_bits(), vec![6, 9, 22, 32, 50]);
    assert!(m.prohibited_ops().is_empty());
    assert!(m.permits_all(), "reserved-only mask defines no prohibition");
    assert_eq!(m.as_raw(), raw, "raw word survives the typed view");
}

#[test]
fn classification_predicates() {
    assert!(UserOperation::SelectButton.is_menu_navigation());
    assert!(UserOperation::PopupOn.is_menu_navigation());
    assert!(!UserOperation::Stop.is_menu_navigation());
    assert!(UserOperation::AngleNumberChange.is_stream_selection());
    assert!(UserOperation::SecondaryPgStreamNumberChange.is_stream_selection());
    assert!(!UserOperation::MenuCall.is_stream_selection());
}

#[test]
fn display_lists_prohibited_names() {
    assert_eq!(UoMask::permit_all().to_string(), "permit-all");
    let m = UoMask::permit_all()
        .with_prohibited(UserOperation::MenuCall)
        .with_prohibited(UserOperation::TitleSearch);
    assert_eq!(m.to_string(), "prohibit: menu_call, title_search");
    let with_reserved = UoMask::from_raw(m.as_raw() | (1u64 << (63 - 50)));
    assert_eq!(
        with_reserved.to_string(),
        "prohibit: menu_call, title_search +reserved"
    );
    let reserved_only = UoMask::from_raw(1u64 << (63 - 50));
    assert_eq!(reserved_only.to_string(), "prohibit: +reserved");
}

#[test]
fn every_named_op_round_trips_through_a_mask() {
    for op in UserOperation::all() {
        let m = UoMask::permit_all().with_prohibited(op);
        assert!(m.is_prohibited(op), "{}", op.name());
        assert_eq!(m.prohibited_ops(), vec![op]);
        assert_eq!(m.as_raw().count_ones(), 1);
        assert!(m.reserved_bits().is_empty());
    }
}
