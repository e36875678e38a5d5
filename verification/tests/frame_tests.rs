use rusted_graw::graw_frame::{GrawData, GrawFrame, GrawFrameHeader};
use rusted_graw::error::{GrawDataError, GrawFrameError};

fn put_be16(buf: &mut [u8], pos: usize, v: u16) {
    buf[pos] = (v >> 8) as u8;
    buf[pos + 1] = v as u8;
}

fn put_be32(buf: &mut [u8], pos: usize, v: u32) {
    buf[pos] = (v >> 24) as u8;
    buf[pos + 1] = (v >> 16) as u8;
    buf[pos + 2] = (v >> 8) as u8;
    buf[pos + 3] = v as u8;
}

#[allow(clippy::too_many_arguments)]
fn frame_buffer(
    frame_size: u32,
    frame_type: u16,
    item_size: u16,
    n_items: u32,
    event_time: u64,
    event_id: u32,
    cobo: u8,
    asad: u8,
) -> Vec<u8> {
    let mut buf = vec![0u8; (frame_size * 256) as usize];
    buf[0] = 8; // meta type
    buf[1] = (frame_size >> 16) as u8;
    buf[2] = (frame_size >> 8) as u8;
    buf[3] = frame_size as u8;
    buf[4] = 0; // data source
    put_be16(&mut buf, 5, frame_type);
    buf[7] = 0; // revision
    put_be16(&mut buf, 8, 1); // header size
    put_be16(&mut buf, 10, item_size);
    put_be32(&mut buf, 12, n_items);
    // 48-bit big-endian timestamp
    buf[16] = (event_time >> 40) as u8;
    buf[17] = (event_time >> 32) as u8;
    buf[18] = (event_time >> 24) as u8;
    buf[19] = (event_time >> 16) as u8;
    buf[20] = (event_time >> 8) as u8;
    buf[21] = event_time as u8;
    put_be32(&mut buf, 22, event_id);
    buf[26] = cobo;
    buf[27] = asad;
    buf
}

fn encode_partial(chip: u32, channel: u32, bucket: u32, amp: u32) -> u32 {
    (chip << 30) | (channel << 23) | (bucket << 14) | amp
}

#[test]
fn partial_frame_decode() {
    // Two partial-mode items; one 256-byte body unit holds them.
    let mut buf = frame_buffer(2, 1, 4, 2, 0, 7, 1, 2);
    put_be32(&mut buf, 256, encode_partial(1, 1, 1, 0));
    put_be32(&mut buf, 260, encode_partial(2, 0, 2, 1));
    let frame = GrawFrame::try_from(&buf).expect("frame should decode");
    assert_eq!(frame.header.event_id, 7);
    assert_eq!(frame.header.cobo_id, 1);
    assert_eq!(frame.header.asad_id, 2);
    assert_eq!(frame.data.len(), 2);
    assert_eq!(
        frame.data[0],
        GrawData { aget_id: 1, channel: 1, time_bucket_id: 1, sample: 0 }
    );
    assert_eq!(
        frame.data[1],
        GrawData { aget_id: 2, channel: 0, time_bucket_id: 2, sample: 1 }
    );
}

#[test]
fn partial_item_round_trip() {
    let cases = [(0u32, 0u32, 0u32, 0u32), (3, 67, 511, 4095), (2, 33, 100, 7), (1, 1, 1, 0)];
    for (chip, channel, bucket, amp) in cases {
        let mut buf = frame_buffer(2, 1, 4, 1, 0, 1, 0, 0);
        put_be32(&mut buf, 256, encode_partial(chip, channel, bucket, amp));
        let frame = GrawFrame::try_from(&buf).expect("frame should decode");
        assert_eq!(frame.data.len(), 1);
        let d = frame.data[0];
        assert_eq!(d.aget_id as u32, chip);
        assert_eq!(d.channel as u32, channel);
        assert_eq!(d.time_bucket_id as u32, bucket);
        assert_eq!(d.sample as u32, amp);
    }
}

#[test]
fn partial_invalid_sample_skipped() {
    // channel 100 is out of range; the sample is dropped, the frame kept.
    let mut buf = frame_buffer(2, 1, 4, 2, 0, 1, 0, 0);
    put_be32(&mut buf, 256, encode_partial(0, 100, 0, 5));
    put_be32(&mut buf, 260, encode_partial(0, 3, 0, 6));
    let frame = GrawFrame::try_from(&buf).expect("frame should decode");
    assert_eq!(frame.data.len(), 1);
    assert_eq!(frame.data[0].channel, 3);
}

#[test]
fn full_frame_counter_reconstruction() {
    // Four full-mode items on chip 0: channel counts up, bucket stays 0.
    let mut buf = frame_buffer(2, 2, 2, 4, 0, 3, 0, 0);
    put_be16(&mut buf, 256, 100);
    put_be16(&mut buf, 258, 101);
    put_be16(&mut buf, 260, 102);
    put_be16(&mut buf, 262, 103);
    let frame = GrawFrame::try_from(&buf).expect("frame should decode");
    assert_eq!(frame.data.len(), 4);
    for (k, amp) in [100i16, 101, 102, 103].iter().enumerate() {
        let d = frame.data[k];
        assert_eq!(d.aget_id, 0);
        assert_eq!(d.channel, k as u8);
        assert_eq!(d.time_bucket_id, 0);
        assert_eq!(d.sample, *amp);
    }
}

#[test]
fn full_frame_crosses_channels_into_next_bucket() {
    // 69 items on one chip: the 69th lands on channel 0, bucket 1.
    let n: u32 = 69;
    let frame_size = 1 + (2 * n + 255) / 256;
    let mut buf = frame_buffer(frame_size, 2, 2, n, 0, 1, 0, 0);
    for k in 0..n as usize {
        put_be16(&mut buf, 256 + 2 * k, k as u16);
    }
    let frame = GrawFrame::try_from(&buf).expect("frame should decode");
    assert_eq!(frame.data.len(), 69);
    assert_eq!(frame.data[67].channel, 67);
    assert_eq!(frame.data[67].time_bucket_id, 0);
    assert_eq!(frame.data[68].channel, 0);
    assert_eq!(frame.data[68].time_bucket_id, 1);
}

#[test]
fn full_frame_bucket_overflow_is_fatal() {
    // 34817 items on one chip push a time bucket past 511.
    let n: u32 = 34817;
    let frame_size = 1 + (2 * n + 255) / 256;
    let mut buf = frame_buffer(frame_size, 2, 2, n, 0, 1, 0, 0);
    for k in 0..n as usize {
        put_be16(&mut buf, 256 + 2 * k, 1);
    }
    let r = GrawFrame::try_from(&buf);
    assert_eq!(
        r.unwrap_err(),
        GrawFrameError::BadDatum(GrawDataError::BadTimeBucket(512))
    );
}

#[test]
fn header_fields_parse() {
    let buf = frame_buffer(2, 1, 4, 0, 0x0000_0001_0203_0405, 99, 6, 3);
    let h = GrawFrameHeader::read_from_buffer(&buf).expect("header should parse");
    assert_eq!(h.meta_type, 8);
    assert_eq!(h.frame_size, 2);
    assert_eq!(h.frame_type, 1);
    assert_eq!(h.header_size, 1);
    assert_eq!(h.item_size, 4);
    assert_eq!(h.n_items, 0);
    assert_eq!(h.event_time, 0x0000_0001_0203_0405);
    assert_eq!(h.event_id, 99);
    assert_eq!(h.cobo_id, 6);
    assert_eq!(h.asad_id, 3);
    let m = h.metadata();
    assert_eq!(m.event_id, 99);
    assert_eq!(m.event_time, 0x0000_0001_0203_0405);
}

#[test]
fn header_too_short() {
    let buf = vec![0u8; 30];
    assert_eq!(
        GrawFrameHeader::read_from_buffer(&buf).unwrap_err(),
        GrawFrameError::EndOfBuffer
    );
}

#[test]
fn check_header_rejects_each_fault() {
    let good = frame_buffer(2, 1, 4, 2, 0, 1, 0, 0);
    let h = GrawFrameHeader::read_from_buffer(&good).unwrap();
    assert!(h.check_header(512).is_ok());

    let mut bad = h;
    bad.meta_type = 6;
    assert_eq!(bad.check_header(512).unwrap_err(), GrawFrameError::IncorrectMetaType(6));

    assert_eq!(
        h.check_header(768).unwrap_err(),
        GrawFrameError::IncorrectFrameSize(2, 768)
    );

    let mut bad = h;
    bad.frame_type = 3;
    assert_eq!(bad.check_header(512).unwrap_err(), GrawFrameError::IncorrectFrameType(3));

    let mut bad = h;
    bad.header_size = 2;
    assert_eq!(bad.check_header(512).unwrap_err(), GrawFrameError::IncorrectHeaderSize(2));

    let mut bad = h;
    bad.item_size = 2;
    assert_eq!(bad.check_header(512).unwrap_err(), GrawFrameError::IncorrectItemSize(2));

    let mut bad = h;
    bad.n_items = 500;
    assert_eq!(
        bad.check_header(512).unwrap_err(),
        GrawFrameError::IncorrectNumberOfItems(2, 9)
    );
}

#[test]
fn frame_tail_padding_is_not_read() {
    // One item; the rest of the body unit is padding and contributes no
    // samples even though it is non-zero.
    let mut buf = frame_buffer(2, 1, 4, 1, 0, 1, 0, 0);
    put_be32(&mut buf, 256, encode_partial(1, 2, 3, 4));
    for b in buf.iter_mut().skip(260) {
        *b = 0xAB;
    }
    let frame = GrawFrame::try_from(&buf).expect("frame should decode");
    assert_eq!(frame.data.len(), 1);
}

#[test]
fn hit_patterns_and_multiplicity_are_kept() {
    let mut buf = frame_buffer(1, 1, 4, 0, 0, 1, 0, 0);
    buf[31] = 0x01; // first byte of the first pattern: lowest bits
    buf[40] = 0x80; // first byte of the second pattern
    put_be16(&mut buf, 67, 0x1234); // first multiplicity
    let frame = GrawFrame::try_from(&buf).expect("frame should decode");
    assert_eq!(frame.hit_patterns.len(), 4);
    assert_eq!(frame.hit_patterns[0], 1u128);
    assert_eq!(frame.hit_patterns[1], 0x80u128);
    assert_eq!(frame.multiplicity, vec![0x1234, 0, 0, 0]);
}
