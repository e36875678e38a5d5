use rusted_graw::error::{EventBuilderError, EventError};
use rusted_graw::event::Event;
use rusted_graw::event_builder::EventBuilder;
use rusted_graw::graw_frame::{GrawData, GrawFrame, GrawFrameHeader};
use rusted_graw::pad_map::PadMap;

fn frame_with(event_id: u32, cobo: u8, asad: u8, time: u64, data: Vec<GrawData>) -> GrawFrame {
    GrawFrame {
        header: GrawFrameHeader {
            meta_type: 8,
            frame_size: 1,
            data_source: 0,
            frame_type: 1,
            revision: 0,
            header_size: 1,
            item_size: 4,
            n_items: data.len() as u32,
            event_time: time,
            event_id,
            cobo_id: cobo,
            asad_id: asad,
            read_offset: 0,
            status: 0,
            total_size_precise: 256,
        },
        hit_patterns: Vec::new(),
        multiplicity: Vec::new(),
        data,
    }
}

fn datum(aget: u8, channel: u8, bucket: u16, amp: i16) -> GrawData {
    GrawData { aget_id: aget, channel, time_bucket_id: bucket, sample: amp }
}

#[test]
fn event_builder_boundaries() {
    // Event ids [1, 1, 2, 2, 3]: events close when a greater id arrives.
    let pad_map = PadMap::new(b"").expect("empty table");
    let mut builder = EventBuilder::new(pad_map);
    let results: Vec<Option<u32>> = [1u32, 1, 2, 2, 3]
        .iter()
        .map(|id| {
            builder
                .append_frame(frame_with(*id, 0, 0, 0, Vec::new()))
                .expect("ordered ids")
                .map(|ev| ev.event_id)
        })
        .collect();
    assert_eq!(results, vec![None, None, Some(1), None, Some(2)]);
    let last = builder.flush_final_event().expect("one event left");
    assert_eq!(last.event_id, 3);
    // the flush consumed the stash: a second flush has nothing to emit
    assert!(builder.flush_final_event().is_none());
}

#[test]
fn event_builder_rejects_out_of_order() {
    let pad_map = PadMap::new(b"").expect("empty table");
    let mut builder = EventBuilder::new(pad_map);
    assert!(builder.append_frame(frame_with(2, 0, 0, 0, Vec::new())).unwrap().is_none());
    match builder.append_frame(frame_with(1, 0, 0, 0, Vec::new())) {
        Err(EventBuilderError::EventOutOfOrder(1, 2)) => {}
        other => panic!("expected an out-of-order fault, got {:?}", other.is_ok()),
    }
}

#[test]
fn event_builder_flush_empty_is_none() {
    let pad_map = PadMap::new(b"").expect("empty table");
    let mut builder = EventBuilder::new(pad_map);
    assert!(builder.flush_final_event().is_none());
}

#[test]
fn event_assembles_mapped_samples_last_write_wins() {
    let pad_map = PadMap::new(b"0,0,0,5,77\n0,0,1,6,78\n").expect("table");
    let frames = vec![
        frame_with(4, 0, 0, 1000, vec![datum(0, 5, 2, 42), datum(1, 6, 0, 7)]),
        frame_with(4, 0, 0, 1001, vec![datum(0, 5, 2, 43), datum(0, 9, 1, 5)]),
    ];
    let event = Event::new(&pad_map, &frames).expect("same event id");
    assert_eq!(event.event_id, 4);
    assert_eq!(event.nframes, 2);
    assert_eq!(event.timestamp, 1001);
    // two mapped coordinates got rows; (0,0,0,9) has no pad and is dropped
    assert_eq!(event.rows.len(), 2);
    let matrix = event.convert_to_data_matrix();
    assert_eq!(matrix.len(), 2);
    assert_eq!(matrix[0].len(), 517);
    // first row: pad 77, the later write to bucket 2 winning
    assert_eq!(&matrix[0][0..5], &[0, 0, 0, 5, 77]);
    assert_eq!(matrix[0][5 + 2], 43);
    assert_eq!(matrix[0][5 + 3], 0);
    // second row: pad 78, bucket 0 amplitude 7
    assert_eq!(&matrix[1][0..5], &[0, 0, 1, 6, 78]);
    assert_eq!(matrix[1][5], 7);
}

#[test]
fn event_timestamps_split_by_controller() {
    // Controller 10 is synchronized with the auxiliary DAQ; its timestamp
    // goes to the alternate slot.
    let pad_map = PadMap::new(b"").expect("empty table");
    let frames = vec![
        frame_with(1, 3, 0, 500, Vec::new()),
        frame_with(1, 10, 0, 900, Vec::new()),
    ];
    let event = Event::new(&pad_map, &frames).expect("same event id");
    assert_eq!(event.timestamp, 500);
    assert_eq!(event.timestampother, 900);
}

#[test]
fn event_rejects_mismatched_ids() {
    let pad_map = PadMap::new(b"").expect("empty table");
    let frames = vec![
        frame_with(1, 0, 0, 0, Vec::new()),
        frame_with(2, 0, 0, 0, Vec::new()),
    ];
    match Event::new(&pad_map, &frames) {
        Err(EventError::MismatchedEventID(2, 1)) => {}
        _ => panic!("mixed event ids must be refused"),
    }
}

#[test]
fn event_inverse_image_recovers_coordinates() {
    // Looking up the map at the coordinates of each assembled row returns
    // exactly that row's address.
    let pad_map = PadMap::new(b"1,2,3,4,900\n").expect("table");
    let frames = vec![frame_with(8, 1, 2, 0, vec![datum(3, 4, 0, 1)])];
    let event = Event::new(&pad_map, &frames).expect("same event id");
    assert_eq!(event.rows.len(), 1);
    let hw = event.rows[0].hw;
    let back = pad_map
        .get_hardware_id(&(hw.cobo_id as u8), &(hw.asad_id as u8), &(hw.aget_id as u8), &(hw.channel as u8))
        .expect("coordinates round-trip through the map");
    assert_eq!(*back, hw);
    assert_eq!(hw.pad_id, 900);
}
