//! Decoding of one GET frame from its byte buffer.
//!
//! A frame is sized in 256-byte units: one unit of header, then items.  The
//! header's multi-byte fields are big-endian, including a 24-bit frame size
//! and a 48-bit timestamp.  Partial-mode frames carry one sample per 32-bit
//! item, with chip, channel, time bucket and amplitude packed in bit fields.
//! Full-mode frames carry one sample per 16-bit item, with only chip and
//! amplitude; channel and time bucket are reconstructed by counting the
//! samples already seen on that chip.

use vstd::prelude::*;

use crate::bytes::{be_u16, be_u32, be_u48, spec_be_u16, spec_be_u24, spec_be_u32, spec_be_u48};
use crate::constants::{
    EXPECTED_FRAME_TYPE_FULL, EXPECTED_FRAME_TYPE_PARTIAL, EXPECTED_HEADER_SIZE,
    EXPECTED_ITEM_SIZE_FULL, EXPECTED_ITEM_SIZE_PARTIAL, EXPECTED_META_TYPE, SIZE_UNIT,
};
use crate::error::{GrawDataError, GrawFrameError};

verus! {

/// One sample: a chip, a channel on it, a time bucket along the waveform,
/// and the amplitude digitized there.
#[derive(Debug, Clone, Copy, PartialEq, Eq, Structural)]
pub struct GrawData {
    pub aget_id: u8,
    pub channel: u8,
    pub time_bucket_id: u16,
    pub sample: i16,
}

impl GrawData {
    /// The ranges a decoded sample must lie in: four chips, 68 channels,
    /// 512 time buckets.
    pub open spec fn valid(self) -> bool {
        self.aget_id <= 3 && self.channel <= 67 && self.time_bucket_id <= 511
    }

    /// Range-check the sample; `Ok` exactly on the valid ranges.
    pub fn check_data(&self) -> (r: Result<(), GrawDataError>)
        ensures
            r.is_ok() <==> self.valid(),
            self.aget_id > 3 ==> r == Err::<(), GrawDataError>(
                GrawDataError::BadAgetID(self.aget_id),
            ),
            self.aget_id <= 3 && self.channel > 67 ==> r == Err::<(), GrawDataError>(
                GrawDataError::BadChannel(self.channel),
            ),
            self.aget_id <= 3 && self.channel <= 67 && self.time_bucket_id > 511 ==> r
                == Err::<(), GrawDataError>(GrawDataError::BadTimeBucket(self.time_bucket_id)),
    {
        if self.aget_id > 3 {
            return Err(GrawDataError::BadAgetID(self.aget_id));
        }
        if self.channel > 67 {
            return Err(GrawDataError::BadChannel(self.channel));
        }
        if self.time_bucket_id > 511 {
            return Err(GrawDataError::BadTimeBucket(self.time_bucket_id));
        }
        Ok(())
    }
}

impl Default for GrawData {
    /// The all-zero sample.
    fn default() -> (r: Self)
        ensures
            r.aget_id == 0 && r.channel == 0 && r.time_bucket_id == 0 && r.sample == 0,
    {
        GrawData { aget_id: 0, channel: 0, time_bucket_id: 0, sample: 0 }
    }
}

/// The identity of a frame that can be read from its header alone: which
/// event it belongs to and when it was taken.
#[derive(Debug, Clone, Copy, PartialEq, Eq, Structural)]
pub struct FrameMetadata {
    pub event_id: u32,
    pub event_time: u64,
}

impl Default for FrameMetadata {
    /// The all-zero metadata, used by readers as the empty cache slot.
    fn default() -> (r: Self)
        ensures
            r.event_id == 0 && r.event_time == 0,
    {
        FrameMetadata { event_id: 0, event_time: 0 }
    }
}

/// The fixed-layout header carried in the first 256-byte unit of a frame.
#[derive(Debug, Clone, Copy, PartialEq, Eq, Structural)]
pub struct GrawFrameHeader {
    pub meta_type: u8,
    /// Frame size in 256-byte units; stored on disk as a 24-bit word.
    pub frame_size: u32,
    pub data_source: u8,
    /// 1 for partial mode, 2 for full mode.
    pub frame_type: u16,
    pub revision: u8,
    /// Header size in 256-byte units; must be 1.
    pub header_size: u16,
    /// Size of one item in bytes: 4 in partial mode, 2 in full mode.
    pub item_size: u16,
    pub n_items: u32,
    /// Event timestamp; stored on disk as a 48-bit word.
    pub event_time: u64,
    pub event_id: u32,
    pub cobo_id: u8,
    pub asad_id: u8,
    pub read_offset: u16,
    pub status: u8,
    /// Bytes of header plus items, without the tail padding.
    pub total_size_precise: u64,
}

/// Ceiling of `a / b` for positive `b`.
pub open spec fn ceil_div(a: int, b: int) -> int {
    (a + b - 1) / b
}

/// `x` clamped from above into a `u32`.
pub open spec fn sat_u32(x: int) -> u32 {
    if x > 0xFFFF_FFFF {
        0xFFFF_FFFFu32
    } else {
        x as u32
    }
}

/// The header encoded at the front of `b`, which must hold at least the 31
/// bytes the fields occupy.
pub open spec fn spec_header(b: Seq<u8>) -> GrawFrameHeader {
    GrawFrameHeader {
        meta_type: b[0],
        frame_size: spec_be_u24(b, 1) as u32,
        data_source: b[4],
        frame_type: spec_be_u16(b, 5) as u16,
        revision: b[7],
        header_size: spec_be_u16(b, 8) as u16,
        item_size: spec_be_u16(b, 10) as u16,
        n_items: spec_be_u32(b, 12) as u32,
        event_time: spec_be_u48(b, 16) as u64,
        event_id: spec_be_u32(b, 22) as u32,
        cobo_id: b[26],
        asad_id: b[27],
        read_offset: spec_be_u16(b, 28) as u16,
        status: b[30],
        total_size_precise: (spec_be_u16(b, 8) * SIZE_UNIT + spec_be_u32(b, 12) * spec_be_u16(
            b,
            10,
        )) as u64,
    }
}

/// The outcome `check_header` owes for a header paired with the length of
/// the buffer it came from.
pub open spec fn spec_check_header(h: GrawFrameHeader, buffer_length: u32) -> Result<
    (),
    GrawFrameError,
> {
    if h.meta_type != EXPECTED_META_TYPE {
        Err(GrawFrameError::IncorrectMetaType(h.meta_type))
    } else if h.frame_size * SIZE_UNIT != buffer_length {
        Err(GrawFrameError::IncorrectFrameSize(h.frame_size, buffer_length))
    } else if h.frame_type != EXPECTED_FRAME_TYPE_FULL && h.frame_type
        != EXPECTED_FRAME_TYPE_PARTIAL {
        Err(GrawFrameError::IncorrectFrameType(h.frame_type))
    } else if h.header_size != EXPECTED_HEADER_SIZE {
        Err(GrawFrameError::IncorrectHeaderSize(h.header_size))
    } else if h.frame_type == EXPECTED_FRAME_TYPE_FULL && h.item_size != EXPECTED_ITEM_SIZE_FULL {
        Err(GrawFrameError::IncorrectItemSize(h.item_size))
    } else if h.frame_type == EXPECTED_FRAME_TYPE_PARTIAL && h.item_size
        != EXPECTED_ITEM_SIZE_PARTIAL {
        Err(GrawFrameError::IncorrectItemSize(h.item_size))
    } else if h.frame_size != ceil_div(h.n_items * h.item_size + h.header_size * SIZE_UNIT, 256) {
        Err(
            GrawFrameError::IncorrectNumberOfItems(
                h.frame_size,
                sat_u32(ceil_div(h.n_items * h.item_size + h.header_size * SIZE_UNIT, 256)),
            ),
        )
    } else {
        Ok(())
    }
}

impl GrawFrameHeader {
    /// The metadata slice of this header.
    pub fn metadata(&self) -> (m: FrameMetadata)
        ensures
            m.event_id == self.event_id,
            m.event_time == self.event_time,
    {
        FrameMetadata { event_id: self.event_id, event_time: self.event_time }
    }

    /// Parse the header fields, in order and with their disk widths, from
    /// the front of `buf`.
    pub fn read_from_buffer(buf: &[u8]) -> (r: Result<GrawFrameHeader, GrawFrameError>)
        ensures
            buf@.len() < 31 ==> r == Err::<GrawFrameHeader, GrawFrameError>(
                GrawFrameError::EndOfBuffer,
            ),
            buf@.len() >= 31 ==> r == Ok::<GrawFrameHeader, GrawFrameError>(spec_header(buf@)),
    {
        if buf.len() < 31 {
            return Err(GrawFrameError::EndOfBuffer);
        }
        let header_size = be_u16(buf, 8);
        let item_size = be_u16(buf, 10);
        let n_items = be_u32(buf, 12);
        proof {
            vstd::arithmetic::mul::lemma_mul_upper_bound(
                n_items as int,
                0xFFFF_FFFF,
                item_size as int,
                0xFFFF,
            );
        }
        let total_size_precise: u64 = (header_size as u64) * 256 + (n_items as u64) * (
        item_size as u64);
        Ok(
            GrawFrameHeader {
                meta_type: buf[0],
                frame_size: crate::bytes::be_u24(buf, 1),
                data_source: buf[4],
                frame_type: be_u16(buf, 5),
                revision: buf[7],
                header_size,
                item_size,
                n_items,
                event_time: be_u48(buf, 16),
                event_id: be_u32(buf, 22),
                cobo_id: buf[26],
                asad_id: buf[27],
                read_offset: be_u16(buf, 28),
                status: buf[30],
                total_size_precise,
            },
        )
    }

    /// Hold the header to the frame invariants: the meta tag, the declared
    /// size against the buffer, the frame type, the header size, the item
    /// size for the type, and the size recomputed from the item count.
    pub fn check_header(&self, buffer_length: u32) -> (r: Result<(), GrawFrameError>)
        ensures
            r == spec_check_header(*self, buffer_length),
    {
        if self.meta_type != EXPECTED_META_TYPE {
            return Err(GrawFrameError::IncorrectMetaType(self.meta_type));
        }
        if (self.frame_size as u64) * 256 != buffer_length as u64 {
            return Err(GrawFrameError::IncorrectFrameSize(self.frame_size, buffer_length));
        }
        if self.frame_type != EXPECTED_FRAME_TYPE_FULL && self.frame_type
            != EXPECTED_FRAME_TYPE_PARTIAL {
            return Err(GrawFrameError::IncorrectFrameType(self.frame_type));
        }
        if self.header_size != EXPECTED_HEADER_SIZE {
            return Err(GrawFrameError::IncorrectHeaderSize(self.header_size));
        }
        if self.frame_type == EXPECTED_FRAME_TYPE_FULL && self.item_size != EXPECTED_ITEM_SIZE_FULL
         {
            return Err(GrawFrameError::IncorrectItemSize(self.item_size));
        }
        if self.frame_type == EXPECTED_FRAME_TYPE_PARTIAL && self.item_size
            != EXPECTED_ITEM_SIZE_PARTIAL {
            return Err(GrawFrameError::IncorrectItemSize(self.item_size));
        }
        proof {
            vstd::arithmetic::mul::lemma_mul_upper_bound(
                self.n_items as int,
                0xFFFF_FFFF,
                self.item_size as int,
                0xFFFF,
            );
        }
        let precise: u64 = (self.n_items as u64) * (self.item_size as u64) + (
        self.header_size as u64) * 256;
        let calc: u64 = (precise + 255) / 256;
        if (self.frame_size as u64) != calc {
            let reported: u32 = if calc > 0xFFFF_FFFF {
                0xFFFF_FFFF
            } else {
                calc as u32
            };
            return Err(GrawFrameError::IncorrectNumberOfItems(self.frame_size, reported));
        }
        Ok(())
    }
}

/// Chip id of a partial-mode item: bits 31 to 30.
pub open spec fn spec_partial_aget(raw: u32) -> u8 {
    ((raw & 0xC000_0000) >> 30) as u8
}

/// Channel of a partial-mode item: bits 29 to 23.
pub open spec fn spec_partial_channel(raw: u32) -> u8 {
    ((raw & 0x3F80_0000) >> 23) as u8
}

/// Time bucket of a partial-mode item: bits 22 to 14.
pub open spec fn spec_partial_bucket(raw: u32) -> u16 {
    ((raw & 0x007F_C000) >> 14) as u16
}

/// Amplitude of a partial-mode item: bits 11 to 0, an unsigned 12-bit value
/// held in a signed 16-bit sample.
pub open spec fn spec_partial_sample(raw: u32) -> i16 {
    (raw & 0x0000_0FFF) as i16
}

/// Chip id of a full-mode item: bits 15 to 14.
pub open spec fn spec_full_aget(raw: u16) -> u8 {
    ((raw & 0xC000) >> 14) as u8
}

/// Amplitude of a full-mode item: bits 11 to 0.
pub open spec fn spec_full_sample(raw: u16) -> i16 {
    (raw & 0x0FFF) as i16
}

/// The sample encoded by the 32-bit big-endian partial-mode item at `off`.
pub open spec fn spec_partial_datum(b: Seq<u8>, off: int) -> GrawData {
    let raw = spec_be_u32(b, off) as u32;
    GrawData {
        aget_id: spec_partial_aget(raw),
        channel: spec_partial_channel(raw),
        time_bucket_id: spec_partial_bucket(raw),
        sample: spec_partial_sample(raw),
    }
}

/// The samples of the first `n` partial-mode items at `start`, keeping only
/// those whose fields pass the range check.
pub open spec fn spec_partial_samples(b: Seq<u8>, start: int, n: int) -> Seq<GrawData>
    decreases n,
{
    if n <= 0 {
        Seq::empty()
    } else {
        let rest = spec_partial_samples(b, start, n - 1);
        let d = spec_partial_datum(b, start + 4 * (n - 1));
        if d.valid() {
            rest.push(d)
        } else {
            rest
        }
    }
}

/// The 16-bit big-endian full-mode item number `k` of the run at `start`.
pub open spec fn spec_full_raw(b: Seq<u8>, start: int, k: int) -> u16 {
    spec_be_u16(b, start + 2 * k) as u16
}

/// How many of the first `k` full-mode items at `start` belong to chip `c`.
pub open spec fn spec_chip_count(b: Seq<u8>, start: int, k: int, c: u8) -> int
    decreases k,
{
    if k <= 0 {
        0
    } else {
        spec_chip_count(b, start, k - 1, c) + if spec_full_aget(spec_full_raw(b, start, k - 1))
            == c {
            1int
        } else {
            0int
        }
    }
}

/// The sample reconstructed from full-mode item `k`: the chip and amplitude
/// come from the item; with `n` the number of earlier items on the same
/// chip, the channel is `n % 68` and the time bucket `n / 68`.
pub open spec fn spec_full_datum(b: Seq<u8>, start: int, k: int) -> GrawData {
    let raw = spec_full_raw(b, start, k);
    let n = spec_chip_count(b, start, k, spec_full_aget(raw));
    GrawData {
        aget_id: spec_full_aget(raw),
        channel: (n % 68) as u8,
        time_bucket_id: (n / 68) as u16,
        sample: spec_full_sample(raw),
    }
}

/// A run of `n` full-mode items decodes without a range fault exactly when
/// no chip accumulates enough samples to push a time bucket past 511.
pub open spec fn spec_full_ok(b: Seq<u8>, start: int, n: int) -> bool {
    forall|k: int|
        0 <= k < n ==> spec_chip_count(b, start, k, spec_full_aget(spec_full_raw(b, start, k)))
            < 34816
}

/// The 72-bit hit pattern stored as nine bytes at `off`, the first byte in
/// the lowest-order bits.
pub open spec fn spec_hit_pattern(b: Seq<u8>, off: int) -> u128 {
    (b[off] + b[off + 1] * 0x100 + b[off + 2] * 0x1_0000 + b[off + 3] * 0x100_0000 + b[off + 4]
        * 0x1_0000_0000 + b[off + 5] * 0x100_0000_0000 + b[off + 6] * 0x1_0000_0000_0000 + b[off
        + 7] * 0x100_0000_0000_0000 + b[off + 8] * 0x1_0000_0000_0000_0000) as u128
}

/// A frame decoded from one buffer: the header, the four per-chip hit
/// patterns and multiplicities, and the samples of the body.
#[derive(Debug, Clone)]
pub struct GrawFrame {
    pub header: GrawFrameHeader,
    /// One 72-bit pattern per chip, in the low bits of each entry.
    pub hit_patterns: Vec<u128>,
    /// One 16-bit multiplicity per chip.
    pub multiplicity: Vec<u16>,
    pub data: Vec<GrawData>,
}

/// The hit patterns and multiplicities of `frame` are the ones stored at
/// their fixed offsets of `b`, and its header is the one at the front.
pub open spec fn spec_preamble(frame: GrawFrame, b: Seq<u8>) -> bool {
    &&& frame.header == spec_header(b)
    &&& frame.hit_patterns@.len() == 4
    &&& forall|i: int| 0 <= i < 4 ==> frame.hit_patterns@[i] == spec_hit_pattern(b, 31 + 9 * i)
    &&& frame.multiplicity@.len() == 4
    &&& forall|i: int| 0 <= i < 4 ==> frame.multiplicity@[i] == spec_be_u16(b, 67 + 2 * i)
}

impl GrawFrame {
    /// The empty frame: an all-zero header and no patterns or samples.
    pub fn new() -> (frame: GrawFrame)
        ensures
            frame.header == (GrawFrameHeader {
                meta_type: 0,
                frame_size: 0,
                data_source: 0,
                frame_type: 0,
                revision: 0,
                header_size: 0,
                item_size: 0,
                n_items: 0,
                event_time: 0,
                event_id: 0,
                cobo_id: 0,
                asad_id: 0,
                read_offset: 0,
                status: 0,
                total_size_precise: 0,
            }),
            frame.hit_patterns@.len() == 0,
            frame.multiplicity@.len() == 0,
            frame.data@.len() == 0,
    {
        GrawFrame {
            header: GrawFrameHeader {
                meta_type: 0,
                frame_size: 0,
                data_source: 0,
                frame_type: 0,
                revision: 0,
                header_size: 0,
                item_size: 0,
                n_items: 0,
                event_time: 0,
                event_id: 0,
                cobo_id: 0,
                asad_id: 0,
                read_offset: 0,
                status: 0,
                total_size_precise: 0,
            },
            hit_patterns: Vec::new(),
            multiplicity: Vec::new(),
            data: Vec::new(),
        }
    }

    fn extract_aget_id(raw_item: &u32) -> (r: u8)
        ensures
            r == spec_partial_aget(*raw_item),
    {
        ((*raw_item & 0xC000_0000) >> 30) as u8
    }

    fn extract_channel(raw_item: &u32) -> (r: u8)
        ensures
            r == spec_partial_channel(*raw_item),
    {
        ((*raw_item & 0x3F80_0000) >> 23) as u8
    }

    fn extract_time_bucket_id(raw_item: &u32) -> (r: u16)
        ensures
            r == spec_partial_bucket(*raw_item),
    {
        ((*raw_item & 0x007F_C000) >> 14) as u16
    }

    fn extract_sample(raw_item: &u32) -> (r: i16)
        ensures
            r == spec_partial_sample(*raw_item),
    {
        (*raw_item & 0x0000_0FFF) as i16
    }

    fn extract_aget_id_full(raw_item: &u16) -> (r: u8)
        ensures
            r == spec_full_aget(*raw_item),
            r <= 3,
    {
        let r = ((*raw_item & 0xC000) >> 14) as u8;
        proof {
            let raw = *raw_item;
            assert(((raw & 0xC000) >> 14) <= 3) by (bit_vector);
        }
        r
    }

    fn extract_sample_full(raw_item: &u16) -> (r: i16)
        ensures
            r == spec_full_sample(*raw_item),
    {
        (*raw_item & 0x0FFF) as i16
    }

    /// Decode `n_items` partial-mode items from their place after the
    /// 256-byte header unit, skipping samples that fail the range check.
    fn extract_partial_data(buffer: &[u8], n_items: u32) -> (data: Vec<GrawData>)
        requires
            256 + 4 * (n_items as int) <= buffer@.len(),
        ensures
            data@ == spec_partial_samples(buffer@, 256, n_items as int),
    {
        let mut data: Vec<GrawData> = Vec::new();
        let n = n_items as usize;
        let blen = buffer.len();
        let mut k: usize = 0;
        while k < n
            invariant
                n == n_items,
                256 + 4 * (n as int) <= buffer@.len(),
                buffer@.len() == blen,
                k <= n,
                data@ == spec_partial_samples(buffer@, 256, k as int),
            decreases n - k,
        {
            let raw = be_u32(buffer, 256 + 4 * k);
            let datum = GrawData {
                aget_id: Self::extract_aget_id(&raw),
                channel: Self::extract_channel(&raw),
                time_bucket_id: Self::extract_time_bucket_id(&raw),
                sample: Self::extract_sample(&raw),
            };
            match datum.check_data() {
                Ok(()) => data.push(datum),
                Err(_) => {},
            }
            k = k + 1;
        }
        data
    }

    /// Decode `n_items` full-mode items from their place after the 256-byte
    /// header unit, reconstructing channel and time bucket from the per-chip
    /// counts; a time bucket past 511 is fatal.
    fn extract_full_data(buffer: &[u8], n_items: u32) -> (r: Result<Vec<GrawData>, GrawFrameError>)
        requires
            256 + 2 * (n_items as int) <= buffer@.len(),
        ensures
            match r {
                Ok(data) => {
                    &&& spec_full_ok(buffer@, 256, n_items as int)
                    &&& data@.len() == n_items
                    &&& forall|j: int|
                        0 <= j < n_items ==> data@[j] == spec_full_datum(buffer@, 256, j)
                },
                Err(e) => {
                    &&& !spec_full_ok(buffer@, 256, n_items as int)
                    &&& e == GrawFrameError::BadDatum(GrawDataError::BadTimeBucket(512))
                },
            },
    {
        let mut data: Vec<GrawData> = Vec::new();
        let mut counters: Vec<u32> = vec![0, 0, 0, 0];
        let n = n_items as usize;
        let blen = buffer.len();
        let mut k: usize = 0;
        while k < n
            invariant
                n == n_items,
                256 + 2 * (n as int) <= buffer@.len(),
                buffer@.len() == blen,
                k <= n,
                counters@.len() == 4,
                forall|c: int|
                    0 <= c < 4 ==> counters@[c] == spec_chip_count(buffer@, 256, k as int, c as u8),
                forall|c: int| 0 <= c < 4 ==> counters@[c] <= 34816,
                data@.len() == k,
                forall|j: int| 0 <= j < k ==> data@[j] == spec_full_datum(buffer@, 256, j),
                forall|j: int|
                    0 <= j < k ==> spec_chip_count(
                        buffer@,
                        256,
                        j,
                        spec_full_aget(spec_full_raw(buffer@, 256, j)),
                    ) < 34816,
            decreases n - k,
        {
            let raw = be_u16(buffer, 256 + 2 * k);
            let aget = Self::extract_aget_id_full(&raw);
            let cnt = counters[aget as usize];
            let datum = GrawData {
                aget_id: aget,
                channel: (cnt % 68) as u8,
                time_bucket_id: (cnt / 68) as u16,
                sample: Self::extract_sample_full(&raw),
            };
            match datum.check_data() {
                Ok(()) => {},
                Err(e) => {
                    proof {
                        assert(spec_chip_count(
                            buffer@,
                            256,
                            k as int,
                            spec_full_aget(spec_full_raw(buffer@, 256, k as int)),
                        ) >= 34816);
                    }
                    return Err(GrawFrameError::BadDatum(e));
                },
            }
            data.push(datum);
            counters.set(aget as usize, cnt + 1);
            k = k + 1;
        }
        Ok(data)
    }

    /// Read one nine-byte hit pattern into the low 72 bits.
    fn read_hit_pattern(buffer: &[u8], pos: usize) -> (r: u128)
        requires
            pos + 9 <= buffer@.len(),
        ensures
            r == spec_hit_pattern(buffer@, pos as int),
    {
        (buffer[pos] as u128) + (buffer[pos + 1] as u128) * 0x100 + (buffer[pos + 2] as u128)
            * 0x1_0000 + (buffer[pos + 3] as u128) * 0x100_0000 + (buffer[pos + 4] as u128)
            * 0x1_0000_0000 + (buffer[pos + 5] as u128) * 0x100_0000_0000 + (buffer[pos
            + 6] as u128) * 0x1_0000_0000_0000 + (buffer[pos + 7] as u128)
            * 0x100_0000_0000_0000 + (buffer[pos + 8] as u128) * 0x1_0000_0000_0000_0000
    }

    /// Parse the four 72-bit hit patterns stored after the header fields.
    fn parse_bitsets(buffer: &[u8], pos: usize) -> (r: Vec<u128>)
        requires
            pos + 36 <= buffer@.len(),
        ensures
            r@.len() == 4,
            forall|i: int| 0 <= i < 4 ==> r@[i] == spec_hit_pattern(buffer@, pos + 9 * i),
    {
        let mut sets: Vec<u128> = Vec::new();
        let blen = buffer.len();
        let mut i: usize = 0;
        while i < 4
            invariant
                pos + 36 <= buffer@.len(),
                buffer@.len() == blen,
                i <= 4,
                sets@.len() == i,
                forall|j: int| 0 <= j < i ==> sets@[j] == spec_hit_pattern(buffer@, pos + 9 * j),
            decreases 4 - i,
        {
            let p = Self::read_hit_pattern(buffer, pos + 9 * i);
            sets.push(p);
            i = i + 1;
        }
        sets
    }

    /// Parse the four big-endian 16-bit multiplicities after the patterns.
    fn parse_multiplicity(buffer: &[u8], pos: usize) -> (r: Vec<u16>)
        requires
            pos + 8 <= buffer@.len(),
        ensures
            r@.len() == 4,
            forall|i: int| 0 <= i < 4 ==> r@[i] == spec_be_u16(buffer@, pos + 2 * i),
    {
        let mut mults: Vec<u16> = Vec::new();
        let blen = buffer.len();
        let mut i: usize = 0;
        while i < 4
            invariant
                pos + 8 <= buffer@.len(),
                buffer@.len() == blen,
                i <= 4,
                mults@.len() == i,
                forall|j: int| 0 <= j < i ==> mults@[j] == spec_be_u16(buffer@, pos + 2 * j),
            decreases 4 - i,
        {
            let m = be_u16(buffer, pos + 2 * i);
            mults.push(m);
            i = i + 1;
        }
        mults
    }

    /// Decode a whole frame buffer: parse the header, hold it to the frame
    /// invariants, take the hit patterns and multiplicities, and decode the
    /// item run in the mode the header declares.
    pub fn try_from(buffer: &[u8]) -> (r: Result<GrawFrame, GrawFrameError>)
        ensures
            buffer@.len() < 31 ==> r == Err::<GrawFrame, GrawFrameError>(
                GrawFrameError::EndOfBuffer,
            ),
            buffer@.len() >= 31 ==> {
                let h = spec_header(buffer@);
                let chk = spec_check_header(h, (buffer@.len() % 0x1_0000_0000) as u32);
                &&& (chk matches Err(e) ==> r == Err::<GrawFrame, GrawFrameError>(e))
                &&& (chk is Ok && h.frame_type == EXPECTED_FRAME_TYPE_PARTIAL ==> (r matches Ok(
                    frame,
                ) && spec_preamble(frame, buffer@) && frame.data@ == spec_partial_samples(
                    buffer@,
                    256,
                    h.n_items as int,
                )))
                &&& (chk is Ok && h.frame_type == EXPECTED_FRAME_TYPE_FULL && spec_full_ok(
                    buffer@,
                    256,
                    h.n_items as int,
                ) ==> (r matches Ok(frame) && spec_preamble(frame, buffer@) && frame.data@.len()
                    == h.n_items && (forall|j: int|
                    0 <= j < h.n_items ==> frame.data@[j] == spec_full_datum(buffer@, 256, j))))
                &&& (chk is Ok && h.frame_type == EXPECTED_FRAME_TYPE_FULL && !spec_full_ok(
                    buffer@,
                    256,
                    h.n_items as int,
                ) ==> r == Err::<GrawFrame, GrawFrameError>(
                    GrawFrameError::BadDatum(GrawDataError::BadTimeBucket(512)),
                ))
                &&& (r matches Ok(frame) ==> frame_data_valid(frame.data@))
            },
    {
        let blen = buffer.len();
        let header = match GrawFrameHeader::read_from_buffer(buffer) {
            Ok(h) => h,
            Err(e) => { return Err(e) },
        };
        let buffer_length: u32 = ((blen as u64) % 0x1_0000_0000) as u32;
        match header.check_header(buffer_length) {
            Ok(()) => {},
            Err(e) => { return Err(e) },
        }
        proof {
            assert(buffer_length == buffer@.len() % 0x1_0000_0000);
            lemma_checked_frame_fits(spec_header(buffer@), buffer@.len() as int);
            assert(spec_header(buffer@).frame_type == EXPECTED_FRAME_TYPE_PARTIAL ==> spec_header(
                buffer@,
            ).item_size == EXPECTED_ITEM_SIZE_PARTIAL);
        }
        let hit_patterns = Self::parse_bitsets(buffer, 31);
        let multiplicity = Self::parse_multiplicity(buffer, 67);
        if header.frame_type == EXPECTED_FRAME_TYPE_PARTIAL {
            proof {
                let h = spec_header(buffer@);
                assert(h.item_size == 4);
                assert(h.n_items * h.item_size == 4 * (h.n_items as int)) by (nonlinear_arith)
                    requires h.item_size == 4;
            }
            let data = Self::extract_partial_data(buffer, header.n_items);
            proof {
                lemma_partial_samples_valid(buffer@, 256, header.n_items as int);
            }
            Ok(GrawFrame { header, hit_patterns, multiplicity, data })
        } else {
            proof {
                let h = spec_header(buffer@);
                assert(h.item_size == 2);
                assert(h.n_items * h.item_size == 2 * (h.n_items as int)) by (nonlinear_arith)
                    requires h.item_size == 2;
            }
            match Self::extract_full_data(buffer, header.n_items) {
                Ok(data) => {
                    proof {
                        assert forall|i: int| 0 <= i < data@.len() implies (#[trigger] data@[i]).valid() by {
                            lemma_full_data_valid(buffer@, 256, i);
                        }
                    }
                    Ok(GrawFrame { header, hit_patterns, multiplicity, data })
                },
                Err(e) => Err(e),
            }
        }
    }
}

/// A buffer whose header passed `check_header` is long enough for the
/// preamble and for the declared item run: the declared size ceiling puts
/// `256 + n_items * item_size` bytes below the buffer's length.
proof fn lemma_checked_frame_fits(h: GrawFrameHeader, len: int)
    requires
        len >= 31,
        spec_check_header(h, (len % 0x1_0000_0000) as u32) matches Ok(_),
    ensures
        256 + h.n_items * h.item_size <= len,
        len >= 256,
{
    let p = h.n_items * h.item_size + h.header_size * SIZE_UNIT;
    assert(h.header_size == 1 && h.frame_size == ceil_div(p, 256));
    assert(h.n_items * h.item_size >= 0) by (nonlinear_arith);
    assert(ceil_div(p, 256) * 256 >= p) by {
        let q = (p + 255) / 256;
        assert(q * 256 == (p + 255) - ((p + 255) % 256));
    }
    assert(h.frame_size * SIZE_UNIT == len % 0x1_0000_0000);
    assert(len % 0x1_0000_0000 <= len);
}

/// All samples of a frame body are in their valid ranges.
pub open spec fn frame_data_valid(data: Seq<GrawData>) -> bool {
    forall|i: int| 0 <= i < data.len() ==> (#[trigger] data[i]).valid()
}

/// Every sample a partial-mode decode keeps has passed the range check.
pub proof fn lemma_partial_samples_valid(b: Seq<u8>, start: int, n: int)
    ensures
        forall|i: int|
            0 <= i < spec_partial_samples(b, start, n).len() ==> (#[trigger] spec_partial_samples(
                b,
                start,
                n,
            )[i]).valid(),
    decreases n,
{
    if n > 0 {
        lemma_partial_samples_valid(b, start, n - 1);
        let rest = spec_partial_samples(b, start, n - 1);
        let whole = spec_partial_samples(b, start, n);
        assert forall|i: int| 0 <= i < whole.len() implies (#[trigger] whole[i]).valid() by {
            if i < rest.len() {
                assert(whole[i] == rest[i]);
            }
        }
    }
}

/// Every sample of a clean full-mode decode is in range: the chip comes
/// from two bits, the channel is a remainder modulo 68, and the time
/// bucket stays below 512 while the per-chip counts stay small.
pub proof fn lemma_full_data_valid(b: Seq<u8>, start: int, k: int)
    requires
        spec_chip_count(b, start, k, spec_full_aget(spec_full_raw(b, start, k))) < 34816,
    ensures
        spec_full_datum(b, start, k).valid(),
{
    let raw = spec_full_raw(b, start, k);
    assert(((raw & 0xC000) >> 14) <= 3) by (bit_vector);
    let c = spec_chip_count(b, start, k, spec_full_aget(raw));
    lemma_chip_count_nonneg(b, start, k, spec_full_aget(raw));
}

/// Per-chip counts never go negative.
pub proof fn lemma_chip_count_nonneg(b: Seq<u8>, start: int, k: int, c: u8)
    ensures
        spec_chip_count(b, start, k, c) >= 0,
    decreases k,
{
    if k > 0 {
        lemma_chip_count_nonneg(b, start, k - 1, c);
    }
}

/// A 32-bit partial-mode item with the four sample fields packed at their
/// places: chip in bits 31 to 30, channel in 29 to 23, time bucket in 22 to
/// 14, amplitude in 11 to 0.
pub open spec fn spec_encode_partial(aget: u32, channel: u32, bucket: u32, amplitude: u32) -> u32 {
    (aget << 30) | (channel << 23) | (bucket << 14) | amplitude
}

/// Packing sample fields in their valid ranges into a partial-mode item and
/// extracting them again returns every field unchanged.
pub proof fn lemma_partial_item_round_trip(aget: u32, channel: u32, bucket: u32, amplitude: u32)
    requires
        aget <= 3,
        channel <= 67,
        bucket <= 511,
        amplitude <= 0xFFF,
    ensures
        spec_partial_aget(spec_encode_partial(aget, channel, bucket, amplitude)) == aget,
        spec_partial_channel(spec_encode_partial(aget, channel, bucket, amplitude)) == channel,
        spec_partial_bucket(spec_encode_partial(aget, channel, bucket, amplitude)) == bucket,
        spec_partial_sample(spec_encode_partial(aget, channel, bucket, amplitude)) == amplitude,
{
    let raw = spec_encode_partial(aget, channel, bucket, amplitude);
    assert((raw & 0xC000_0000) >> 30 == aget && (raw & 0x3F80_0000) >> 23 == channel && (raw
        & 0x007F_C000) >> 14 == bucket && (raw & 0x0000_0FFF) == amplitude) by (bit_vector)
        requires
            aget <= 3,
            channel <= 67,
            bucket <= 511,
            amplitude <= 0xFFF,
            raw == (aget << 30) | (channel << 23) | (bucket << 14) | amplitude,
    ;
}

} // verus!
