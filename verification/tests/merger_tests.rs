use rusted_graw::graw_frame::{FrameMetadata, GrawFrame, GrawFrameHeader};
use rusted_graw::merger::{select_earliest, FrameQueue, Merger};
use rusted_graw::error::MergerError;

fn frame_with(event_id: u32, cobo: u8) -> GrawFrame {
    GrawFrame {
        header: GrawFrameHeader {
            meta_type: 8,
            frame_size: 1,
            data_source: 0,
            frame_type: 1,
            revision: 0,
            header_size: 1,
            item_size: 4,
            n_items: 0,
            event_time: 0,
            event_id,
            cobo_id: cobo,
            asad_id: 0,
            read_offset: 0,
            status: 0,
            total_size_precise: 256,
        },
        hit_patterns: Vec::new(),
        multiplicity: Vec::new(),
        data: Vec::new(),
    }
}

#[test]
fn merger_orders_by_event_id_with_tie_to_first_stack() {
    // Stack A emits event ids [1, 2, 4], stack B [1, 3, 4].
    let a = FrameQueue::new(vec![frame_with(1, 1), frame_with(2, 1), frame_with(4, 1)]);
    let b = FrameQueue::new(vec![frame_with(1, 2), frame_with(3, 2), frame_with(4, 2)]);
    let mut merger = Merger::new(vec![a, b]).expect("two stacks");
    let mut ids: Vec<u32> = Vec::new();
    let mut cobos: Vec<u8> = Vec::new();
    while let Some(frame) = merger.get_next_frame() {
        ids.push(frame.header.event_id);
        cobos.push(frame.header.cobo_id);
    }
    assert_eq!(ids, vec![1, 1, 2, 3, 4, 4]);
    // the tie at event 1 goes to stack A, and so does the tie at event 4
    assert_eq!(cobos, vec![1, 2, 1, 2, 1, 2]);
}

#[test]
fn merger_emits_nothing_from_empty_stacks() {
    let a = FrameQueue::new(Vec::new());
    let mut merger = Merger::new(vec![a]).expect("one stack");
    assert!(merger.get_next_frame().is_none());
}

#[test]
fn merger_requires_a_stack() {
    match Merger::new(Vec::new()) {
        Err(MergerError::NoFilesError) => {}
        _ => panic!("a merger over no stacks must be refused"),
    }
}

#[test]
fn select_earliest_picks_minimum_then_earliest() {
    let m = |id: u32| -> Option<FrameMetadata> {
        Some(FrameMetadata { event_id: id, event_time: 0 })
    };
    assert_eq!(select_earliest(&vec![m(5), m(3), None, m(3)]), Some(1));
    assert_eq!(select_earliest(&vec![None, None]), None);
    assert_eq!(select_earliest(&vec![None, m(9)]), Some(1));
    assert_eq!(select_earliest(&vec![m(2)]), Some(0));
}

#[test]
fn queue_peek_and_consume() {
    let mut q = FrameQueue::new(vec![frame_with(10, 0), frame_with(11, 0)]);
    let meta = q.peek_next().expect("first frame");
    assert_eq!(meta.event_id, 10);
    let f = q.consume_next();
    assert_eq!(f.header.event_id, 10);
    assert_eq!(q.peek_next().expect("second frame").event_id, 11);
    let _ = q.consume_next();
    assert!(q.peek_next().is_none());
}
