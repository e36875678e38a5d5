use rusted_graw::error::PadMapError;
use rusted_graw::pad_map::{generate_uuid, parse_u64_digits, HardwareID, PadMap};

#[test]
fn uuid_weights_the_four_coordinates() {
    assert_eq!(generate_uuid(&1, &2, &3, &4), 1_020_304);
    assert_eq!(generate_uuid(&0, &0, &0, &0), 0);
    assert_eq!(generate_uuid(&255, &255, &255, &255), 255_000_000 + 2_550_000 + 25_500 + 255);
}

#[test]
fn hardware_id_widens_fields() {
    let hw = HardwareID::new(&1, &2, &3, &4, &77);
    assert_eq!(hw.cobo_id, 1);
    assert_eq!(hw.asad_id, 2);
    assert_eq!(hw.aget_id, 3);
    assert_eq!(hw.channel, 4);
    assert_eq!(hw.pad_id, 77);
}

#[test]
fn lookup_returns_the_row() {
    let pm = PadMap::new(b"1,2,3,4,100\n5,6,7,8,200\n").expect("table parses");
    let hw = pm.get_hardware_id(&1, &2, &3, &4).expect("row present");
    assert_eq!(*hw, HardwareID { cobo_id: 1, asad_id: 2, aget_id: 3, channel: 4, pad_id: 100 });
    assert!(pm.get_hardware_id(&9, &9, &9, &9).is_none());
}

#[test]
fn lookup_is_idempotent_through_generate_key() {
    let pm = PadMap::new(b"1,2,3,4,100\n").expect("table parses");
    let hw = *pm.get_hardware_id(&1, &2, &3, &4).expect("row present");
    let again = *pm
        .get_hardware_id(
            &(hw.cobo_id as u8),
            &(hw.asad_id as u8),
            &(hw.aget_id as u8),
            &(hw.channel as u8),
        )
        .expect("same key again");
    assert_eq!(again, hw);
}

#[test]
fn insertion_order_does_not_matter_for_distinct_keys() {
    let forward = PadMap::new(b"1,0,0,0,10\n2,0,0,0,20\n3,0,0,0,30\n").expect("table parses");
    let backward = PadMap::new(b"3,0,0,0,30\n2,0,0,0,20\n1,0,0,0,10\n").expect("table parses");
    for c in [1u8, 2, 3] {
        assert_eq!(
            forward.get_hardware_id(&c, &0, &0, &0),
            backward.get_hardware_id(&c, &0, &0, &0)
        );
    }
}

#[test]
fn duplicate_key_last_row_wins() {
    let pm = PadMap::new(b"1,2,3,4,100\n1,2,3,4,900\n").expect("table parses");
    let hw = pm.get_hardware_id(&1, &2, &3, &4).expect("row present");
    assert_eq!(hw.pad_id, 900);
}

#[test]
fn short_line_is_a_format_fault() {
    assert!(matches!(PadMap::new(b"1,2,3\n"), Err(PadMapError::BadFileFormat)));
}

#[test]
fn non_numeric_field_is_a_parse_fault() {
    assert!(matches!(PadMap::new(b"1,2,x,4,5\n"), Err(PadMapError::ParsingError)));
    assert!(matches!(PadMap::new(b"1,2,300,4,5\n"), Err(PadMapError::ParsingError)));
    assert!(matches!(PadMap::new(b"1,2,,4,5\n"), Err(PadMapError::ParsingError)));
}

#[test]
fn extra_fields_are_ignored() {
    let pm = PadMap::new(b"1,2,3,4,100,extra,junk\n").expect("table parses");
    assert!(pm.get_hardware_id(&1, &2, &3, &4).is_some());
}

#[test]
fn carriage_returns_are_stripped() {
    let pm = PadMap::new(b"1,2,3,4,100\r\n5,6,7,8,200\r\n").expect("table parses");
    assert!(pm.get_hardware_id(&5, &6, &7, &8).is_some());
}

#[test]
fn digits_parse_and_overflow() {
    assert_eq!(parse_u64_digits(b"0"), Some(0));
    assert_eq!(parse_u64_digits(b"18446744073709551615"), Some(u64::MAX));
    assert_eq!(parse_u64_digits(b"18446744073709551616"), None);
    assert_eq!(parse_u64_digits(b""), None);
    assert_eq!(parse_u64_digits(b"12a"), None);
}
