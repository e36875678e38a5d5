use rusted_graw::error::EvtItemError;
use rusted_graw::ring_item::{
    BeginRunItem, CounterItem, EndRunItem, PhysicsItem, RingItem, RingType, RunInfo, ScalersItem,
};

fn item_with(bytes: Vec<u8>, ring_type: RingType) -> RingItem {
    RingItem { size: bytes.len(), bytes, ring_type }
}

fn push_le32(v: &mut Vec<u8>, x: u32) {
    v.extend_from_slice(&x.to_le_bytes());
}

fn push_le16(v: &mut Vec<u8>, x: u16) {
    v.extend_from_slice(&x.to_le_bytes());
}

#[test]
fn ring_item_strips_secondary_header() {
    // byte 8 is 20: a 28-byte header precedes the payload
    let mut record = vec![0u8; 30];
    record[4] = 30; // physics type tag
    record[8] = 20;
    record[28] = 0xAA;
    record[29] = 0xBB;
    let item = RingItem::try_from(&record).expect("record parses");
    assert_eq!(item.size, 30);
    assert!(matches!(item.ring_type, RingType::Physics));
    assert_eq!(item.bytes, vec![0xAA, 0xBB]);
}

#[test]
fn ring_item_strips_plain_header() {
    let mut record = vec![0u8; 14];
    record[4] = 1; // begin-run tag
    record[12] = 0xCC;
    record[13] = 0xDD;
    let item = RingItem::try_from(&record).expect("record parses");
    assert!(matches!(item.ring_type, RingType::BeginRun));
    assert_eq!(item.bytes, vec![0xCC, 0xDD]);
}

#[test]
fn ring_item_type_tags() {
    for (tag, expect) in [
        (1u8, RingType::BeginRun),
        (2, RingType::EndRun),
        (12, RingType::Dummy),
        (20, RingType::Scalers),
        (30, RingType::Physics),
        (31, RingType::Counter),
        (77, RingType::Invalid),
    ] {
        assert_eq!(RingType::from(tag), expect);
    }
}

#[test]
fn ring_item_too_short() {
    let record = vec![0u8; 4];
    assert!(matches!(
        RingItem::try_from(&record),
        Err(EvtItemError::ItemSizeError)
    ));
    let record = vec![0u8; 10];
    assert!(matches!(
        RingItem::try_from(&record),
        Err(EvtItemError::ItemSizeError)
    ));
}

#[test]
fn boundary_strip_two_boundaries() {
    // First boundary counts 4 words (8 bytes); the next boundary word is
    // erased in turn and its span keeps the final byte.
    let payload = vec![
        0x04, 0x00, 0xAA, 0xBB, 0xCC, 0xDD, 0xEE, 0xFF, 0x11, 0x22, 0x03, 0xF0, 0x99,
    ];
    let mut item = item_with(payload, RingType::Physics);
    item.remove_boundaries();
    assert_eq!(item.bytes, vec![0xAA, 0xBB, 0xCC, 0xDD, 0xEE, 0xFF, 0x11, 0x22, 0x99]);
}

#[test]
fn boundary_strip_single_boundary_keeps_payload() {
    // One boundary word covering the whole rest: the payload proper comes
    // through unchanged.
    let payload = vec![0x02, 0x00, 0x10, 0x20, 0x30, 0x40];
    let mut item = item_with(payload, RingType::Physics);
    item.remove_boundaries();
    assert_eq!(item.bytes, vec![0x10, 0x20, 0x30, 0x40]);
}

#[test]
fn boundary_strip_empty_is_identity() {
    let mut item = item_with(Vec::new(), RingType::Physics);
    item.remove_boundaries();
    assert_eq!(item.bytes, Vec::<u8>::new());
}

#[test]
fn scalers_decode() {
    let payload = vec![
        0x00, 0x10, 0x00, 0x00, // start offset 0x1000
        0x00, 0x20, 0x00, 0x00, // stop offset 0x2000
        0x01, 0x02, 0x03, 0x04, // timestamp 0x04030201
        0x00, 0x00, 0x00, 0x00, // dummy
        0x02, 0x00, 0x00, 0x00, // count 2
        0x01, 0x00, 0x00, 0x00, // incremental 1
        0xAA, 0x00, 0x00, 0x00, 0xBB, 0x00, 0x00, 0x00,
    ];
    let item = item_with(payload, RingType::Scalers);
    let scalers = ScalersItem::try_from(item).expect("scalers parse");
    assert_eq!(scalers.start_offset, 0x1000);
    assert_eq!(scalers.stop_offset, 0x2000);
    assert_eq!(scalers.timestamp, 0x04030201);
    assert_eq!(scalers.incremental, 1);
    assert_eq!(scalers.data, vec![0xAA, 0xBB]);
    assert_eq!(scalers.get_header_array(), vec![0x1000, 0x2000, 0x04030201, 2, 1]);
}

#[test]
fn scalers_too_short_for_count() {
    let mut payload = vec![0u8; 24];
    payload[16] = 9; // count 9, but no values follow
    let item = item_with(payload, RingType::Scalers);
    assert!(matches!(
        ScalersItem::try_from(item),
        Err(EvtItemError::ItemSizeError)
    ));
}

#[test]
fn begin_run_decode_with_nul_terminated_title() {
    let mut payload = Vec::new();
    push_le32(&mut payload, 42); // run
    push_le32(&mut payload, 0); // skipped
    push_le32(&mut payload, 100); // start
    push_le32(&mut payload, 0); // skipped
    payload.extend_from_slice(b"hello\0junk");
    let item = item_with(payload, RingType::BeginRun);
    let begin = BeginRunItem::try_from(item).expect("begin-run parses");
    assert_eq!(begin.run, 42);
    assert_eq!(begin.start, 100);
    assert_eq!(begin.title, "hello".to_string());
}

#[test]
fn begin_run_bad_title_bytes() {
    let mut payload = vec![0u8; 16];
    payload.push(0xFF); // not UTF-8
    let item = item_with(payload, RingType::BeginRun);
    assert!(matches!(
        BeginRunItem::try_from(item),
        Err(EvtItemError::BadTitle)
    ));
}

#[test]
fn end_run_decode() {
    let mut payload = Vec::new();
    push_le32(&mut payload, 777); // stop time
    push_le32(&mut payload, 3600); // elapsed seconds
    let item = item_with(payload, RingType::EndRun);
    let end = EndRunItem::try_from(item).expect("end-run parses");
    assert_eq!(end.stop, 777);
    assert_eq!(end.time, 3600);
}

#[test]
fn counter_decode() {
    let mut payload = vec![0u8; 12];
    payload.extend_from_slice(&0x0102_0304_0506_0708u64.to_le_bytes());
    let item = item_with(payload, RingType::Counter);
    let counter = CounterItem::try_from(item).expect("counter parses");
    assert_eq!(counter.count, 0x0102_0304_0506_0708);
}

#[test]
fn run_info_lines() {
    let mut info = RunInfo::new();
    info.begin.run = 42;
    info.begin.title = "dry run".to_string();
    info.end.time = 17;
    assert_eq!(info.print_begin(), "Run Number: 42 Title: dry run".to_string());
    assert_eq!(info.print_end(), "Run Number: 42 Ellapsed Time: 17s".to_string());
}

fn physics_payload_head(event: u32, ts: u32) -> Vec<u8> {
    let mut p = Vec::new();
    push_le32(&mut p, event);
    push_le32(&mut p, ts);
    push_le16(&mut p, 0x1903); // flash ADC tag
    p
}

#[test]
fn physics_linear_window() {
    let mut p = physics_payload_head(5, 9);
    push_le16(&mut p, 0x0001); // group 0 enabled
    push_le32(&mut p, 0); // register word
    push_le16(&mut p, 0xfadc); // group header
    push_le32(&mut p, 0); // trigger: pointer 0, no wrap
    push_le32(&mut p, 2); // two samples
    // two sample pairs: first word of a pair is the odd channel
    push_le16(&mut p, 0x0111);
    push_le16(&mut p, 0x0222);
    push_le16(&mut p, 0x0333);
    push_le16(&mut p, 0x0444);
    push_le16(&mut p, 0xffff); // trailer
    push_le16(&mut p, 0x0977); // coincidence tag
    push_le16(&mut p, 0x00AB);
    let item = item_with(p, RingType::Physics);
    let physics = PhysicsItem::try_from(item).expect("physics parses");
    assert_eq!(physics.event, 5);
    assert_eq!(physics.timestamp, 9);
    assert_eq!(physics.fadc.samples, 2);
    assert_eq!(physics.fadc.channels, 2);
    assert_eq!(physics.fadc.traces[1], vec![0x111, 0x333]);
    assert_eq!(physics.fadc.traces[0], vec![0x222, 0x444]);
    assert_eq!(physics.coinc.coinc, 0xAB);
    assert_eq!(physics.get_header_array(), vec![5, 9]);
}

#[test]
fn physics_wrapped_window_reassembles_time_order() {
    // Write pointer 0 with the wrap flag: the window's tail sits after the
    // pointer and its head wraps back to the data start.
    let mut p = physics_payload_head(1, 2);
    push_le16(&mut p, 0x0001);
    push_le32(&mut p, 0);
    push_le16(&mut p, 0xfadc);
    push_le32(&mut p, 0x0008_0000); // wrap bit set, pointer 0
    push_le32(&mut p, 3); // three samples
    for pair in [(0x001u16, 0x002u16), (0x003, 0x004), (0x005, 0x006)] {
        push_le16(&mut p, pair.0);
        push_le16(&mut p, pair.1);
    }
    push_le16(&mut p, 0xffff);
    push_le16(&mut p, 0x0977);
    push_le16(&mut p, 0x0001);
    let item = item_with(p, RingType::Physics);
    let physics = PhysicsItem::try_from(item).expect("physics parses");
    assert_eq!(physics.fadc.traces[1], vec![0x003, 0x005, 0x001]);
    assert_eq!(physics.fadc.traces[0], vec![0x004, 0x006, 0x002]);
}

#[test]
fn physics_abandons_group_on_bad_header() {
    // A group header other than 0xfadc abandons the segment; the stream
    // position then misses the coincidence tag.
    let mut p = physics_payload_head(1, 2);
    push_le16(&mut p, 0x0001);
    push_le32(&mut p, 0);
    push_le16(&mut p, 0x1234); // bad group header
    push_le16(&mut p, 0x0977);
    push_le16(&mut p, 0x0005);
    let item = item_with(p, RingType::Physics);
    let physics = PhysicsItem::try_from(item).expect("physics parses");
    assert_eq!(physics.fadc.samples, 0);
    assert_eq!(physics.fadc.channels, 2);
    assert_eq!(physics.coinc.coinc, 5);
}

#[test]
fn physics_wrong_first_tag_is_stack_order_fault() {
    let mut p = Vec::new();
    push_le32(&mut p, 1);
    push_le32(&mut p, 2);
    push_le16(&mut p, 0x0977); // coincidence tag where the ADC tag belongs
    let item = item_with(p, RingType::Physics);
    assert!(matches!(
        PhysicsItem::try_from(item),
        Err(EvtItemError::StackOrderError)
    ));
}

#[test]
fn physics_wrong_second_tag_is_stack_order_fault() {
    let mut p = physics_payload_head(1, 2);
    push_le16(&mut p, 0x0000); // no group enabled
    push_le32(&mut p, 0);
    push_le16(&mut p, 0x1903); // ADC tag where the coincidence tag belongs
    push_le16(&mut p, 0x0005);
    let item = item_with(p, RingType::Physics);
    assert!(matches!(
        PhysicsItem::try_from(item),
        Err(EvtItemError::StackOrderError)
    ));
}

#[test]
fn begin_run_too_short() {
    let item = item_with(vec![0u8; 15], RingType::BeginRun);
    assert!(matches!(
        BeginRunItem::try_from(item),
        Err(EvtItemError::ItemSizeError)
    ));
}

#[test]
fn end_run_too_short() {
    let item = item_with(vec![0u8; 7], RingType::EndRun);
    assert!(matches!(
        EndRunItem::try_from(item),
        Err(EvtItemError::ItemSizeError)
    ));
}

#[test]
fn counter_too_short() {
    let item = item_with(vec![0u8; 19], RingType::Counter);
    assert!(matches!(
        CounterItem::try_from(item),
        Err(EvtItemError::ItemSizeError)
    ));
}

#[test]
fn physics_too_short() {
    let item = item_with(vec![0u8; 9], RingType::Physics);
    assert!(matches!(
        PhysicsItem::try_from(item),
        Err(EvtItemError::ItemSizeError)
    ));
}

#[test]
fn physics_two_groups_enabled() {
    // Groups 0 and 1 enabled: the second group's traces land in rows 2
    // and 3, and the shared sample count is the last group's.
    let mut p = physics_payload_head(7, 8);
    push_le16(&mut p, 0x0003);
    push_le32(&mut p, 0);
    // group 0: one sample
    push_le16(&mut p, 0xfadc);
    push_le32(&mut p, 0);
    push_le32(&mut p, 1);
    push_le16(&mut p, 0x0010);
    push_le16(&mut p, 0x0020);
    push_le16(&mut p, 0xffff);
    // group 1: one sample
    push_le16(&mut p, 0xfadc);
    push_le32(&mut p, 0);
    push_le32(&mut p, 1);
    push_le16(&mut p, 0x0030);
    push_le16(&mut p, 0x0040);
    push_le16(&mut p, 0xffff);
    push_le16(&mut p, 0x0977);
    push_le16(&mut p, 0x0000);
    let item = item_with(p, RingType::Physics);
    let physics = PhysicsItem::try_from(item).expect("physics parses");
    assert_eq!(physics.fadc.channels, 4);
    assert_eq!(physics.fadc.traces[1], vec![0x10]);
    assert_eq!(physics.fadc.traces[0], vec![0x20]);
    assert_eq!(physics.fadc.traces[3], vec![0x30]);
    assert_eq!(physics.fadc.traces[2], vec![0x40]);
}
