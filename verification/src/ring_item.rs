//! Decoding of FRIBDAQ ring items.
//!
//! A ring item is a length-prefixed, type-tagged record; every multi-byte
//! integer in it is little-endian.  The fifth byte names the item type and
//! the ninth says whether a 28-byte secondary header precedes the payload.
//! Physics payloads additionally carry boundary words inserted by the
//! VMUSB controller every four kilobytes, which must be stripped before
//! parsing.

use vstd::prelude::*;
use vstd::string::{StringExecFns, StringSliceAdditionalSpecFns};

use crate::bytes::{le_u16, le_u32, le_u64, spec_le_u16, spec_le_u32, spec_le_u64};
use crate::error::EvtItemError;
use crate::pad_map::find_in;
use crate::text::{spec_udec, u32_to_string};

verus! {

broadcast use vstd::std_specs::vec::axiom_spec_len;

/// The kind of data a ring item holds.
#[derive(Debug, Clone, Copy, PartialEq, Eq, Structural)]
pub enum RingType {
    BeginRun,
    EndRun,
    Dummy,
    Scalers,
    Physics,
    Counter,
    Invalid,
}

/// The kind the type byte of a ring item names.
pub open spec fn spec_ring_type(value: u8) -> RingType {
    if value == 1 {
        RingType::BeginRun
    } else if value == 2 {
        RingType::EndRun
    } else if value == 12 {
        RingType::Dummy
    } else if value == 20 {
        RingType::Scalers
    } else if value == 30 {
        RingType::Physics
    } else if value == 31 {
        RingType::Counter
    } else {
        RingType::Invalid
    }
}

impl From<u8> for RingType {
    /// Read the type byte.
    fn from(value: u8) -> (r: Self) {
        match value {
            1u8 => RingType::BeginRun,
            2u8 => RingType::EndRun,
            12u8 => RingType::Dummy,
            20u8 => RingType::Scalers,
            30u8 => RingType::Physics,
            31u8 => RingType::Counter,
            _ => RingType::Invalid,
        }
    }
}

impl vstd::std_specs::convert::FromSpecImpl<u8> for RingType {
    open spec fn obeys_from_spec() -> bool {
        true
    }

    open spec fn from_spec(v: u8) -> Self {
        spec_ring_type(v)
    }
}

/// One raw ring item: its total record size, its payload with the headers
/// already stripped, and its type.
#[derive(Debug, Clone)]
pub struct RingItem {
    pub size: usize,
    pub bytes: Vec<u8>,
    pub ring_type: RingType,
}

impl RingItem {
    /// The empty, invalid item.
    pub fn new() -> (r: Self)
        ensures
            r.size == 0,
            r.bytes@.len() == 0,
            r.ring_type is Invalid,
    {
        RingItem { size: 0, bytes: Vec::new(), ring_type: RingType::Invalid }
    }

    /// Take a whole record apart: the fifth byte gives the type, and the
    /// payload starts after 28 bytes when the ninth byte is 20 and the
    /// record is long enough for the secondary header, else after 12.
    pub fn try_from(buffer: &[u8]) -> (r: Result<RingItem, EvtItemError>)
        ensures
            buffer@.len() <= 4 ==> r == Err::<RingItem, EvtItemError>(EvtItemError::ItemSizeError),
            buffer@.len() > 8 && buffer@[8] == 20 && buffer@.len() >= 28 ==> (r matches Ok(item)
                && item.size == buffer@.len() && item.ring_type == spec_ring_type(buffer@[4])
                && item.bytes@ == buffer@.subrange(28, buffer@.len() as int)),
            buffer@.len() > 4 && !(buffer@.len() > 8 && buffer@[8] == 20 && buffer@.len() >= 28)
                && buffer@.len() >= 12 ==> (r matches Ok(item) && item.size == buffer@.len()
                && item.ring_type == spec_ring_type(buffer@[4]) && item.bytes@ == buffer@.subrange(
                12,
                buffer@.len() as int,
            )),
            buffer@.len() > 4 && !(buffer@.len() > 8 && buffer@[8] == 20 && buffer@.len() >= 28)
                && buffer@.len() < 12 ==> r == Err::<RingItem, EvtItemError>(
                EvtItemError::ItemSizeError,
            ),
    {
        if buffer.len() <= 4 {
            return Err(EvtItemError::ItemSizeError);
        }
        let rt_data = buffer[4];
        let item_data: Vec<u8>;
        if buffer.len() > 8 && buffer[8] == 20 && buffer.len() >= 28 {
            item_data = vstd::slice::slice_to_vec(&buffer[28..buffer.len()]);
        } else if buffer.len() >= 12 {
            item_data = vstd::slice::slice_to_vec(&buffer[12..buffer.len()]);
        } else {
            return Err(EvtItemError::ItemSizeError);
        }
        Ok(RingItem { size: buffer.len(), bytes: item_data, ring_type: RingType::from(rt_data) })
    }

    /// Strip the VMUSB boundary words from a physics payload: starting at
    /// the front, each stop holds a little-endian word whose low twelve
    /// bits count the 16-bit words to the next boundary; the two boundary
    /// bytes are erased and the counted span is kept.
    pub fn remove_boundaries(&mut self)
        requires
            boundaries_wf(old(self).bytes@),
        ensures
            final(self).size == old(self).size,
            final(self).ring_type == old(self).ring_type,
            final(self).bytes@ == spec_strip_boundaries(old(self).bytes@),
    {
        let mut ind: usize = 0;
        let ghost orig = self.bytes@;
        proof {
            assert(self.bytes@.skip(0) =~= self.bytes@);
            assert(self.bytes@.take(0) =~= Seq::<u8>::empty());
            assert(Seq::<u8>::empty() + spec_strip_boundaries(orig) =~= spec_strip_boundaries(
                orig,
            ));
        }
        while ind < self.bytes.len()
            invariant
                ind <= self.bytes@.len(),
                self.size == old(self).size,
                self.ring_type == old(self).ring_type,
                boundaries_wf(self.bytes@.skip(ind as int)),
                spec_strip_boundaries(orig) == self.bytes@.take(ind as int)
                    + spec_strip_boundaries(self.bytes@.skip(ind as int)),
            decreases self.bytes@.len() - ind,
        {
            let ghost pre = self.bytes@;
            let ghost suffix = pre.skip(ind as int);
            proof {
                assert(suffix.len() >= 1);
                assert(suffix.len() != 1);
            }
            let wlength = le_u16(&self.bytes, ind) & 0xfff;
            proof {
                let raw = spec_le_u16(pre, ind as int) as u16;
                assert(raw & 0xfff == raw % 0x1000) by (bit_vector);
                assert(spec_le_u16(suffix, 0) == spec_le_u16(pre, ind as int));
            }
            self.bytes.remove(ind);
            self.bytes.remove(ind);
            proof {
                assert(self.bytes@ =~= pre.take(ind as int) + suffix.skip(2));
                assert(self.bytes@.take(ind as int) =~= pre.take(ind as int));
                assert(self.bytes@.skip(ind as int) =~= suffix.skip(2));
            }
            let remaining = self.bytes.len() - ind;
            let skip_bytes = (wlength as usize) * 2;
            let ghost w = spec_le_u16(suffix, 0) % 0x1000;
            proof {
                assert(suffix.subrange(2, suffix.len() as int) =~= self.bytes@.skip(ind as int));
            }
            if skip_bytes >= remaining {
                proof {
                    assert(spec_strip_boundaries(suffix) == suffix.subrange(
                        2,
                        suffix.len() as int,
                    ));
                    assert(spec_strip_boundaries(orig) =~= self.bytes@.take(
                        self.bytes@.len() as int,
                    ) + spec_strip_boundaries(self.bytes@.skip(self.bytes@.len() as int)));
                }
                ind = self.bytes.len();
            } else {
                let ghost rest = suffix.subrange(2, suffix.len() as int);
                proof {
                    assert(spec_strip_boundaries(suffix) == rest.subrange(0, 2 * w)
                        + spec_strip_boundaries(rest.subrange(2 * w, rest.len() as int)));
                    assert(self.bytes@.take(ind + 2 * w) =~= pre.take(ind as int) + rest.subrange(
                        0,
                        2 * w,
                    ));
                    assert(self.bytes@.skip(ind + 2 * w) =~= rest.subrange(
                        2 * w,
                        rest.len() as int,
                    ));
                    assert(spec_strip_boundaries(orig) =~= self.bytes@.take(ind + 2 * w)
                        + spec_strip_boundaries(self.bytes@.skip(ind + 2 * w)));
                }
                ind = ind + skip_bytes;
            }
        }
        proof {
            assert(self.bytes@.take(ind as int) =~= self.bytes@);
            assert(self.bytes@.skip(ind as int) =~= Seq::<u8>::empty());
            assert(spec_strip_boundaries(orig) =~= self.bytes@);
        }
    }
}

/// The payload with its boundary words removed: at each stop the two-byte
/// word is erased and the span of 16-bit words it counts is kept.
pub open spec fn spec_strip_boundaries(b: Seq<u8>) -> Seq<u8>
    decreases b.len(),
{
    if b.len() < 2 {
        b
    } else {
        let w = spec_le_u16(b, 0) % 0x1000;
        let rest = b.subrange(2, b.len() as int);
        if 2 * w >= rest.len() {
            rest
        } else {
            rest.subrange(0, 2 * w) + spec_strip_boundaries(rest.subrange(2 * w, rest.len() as int))
        }
    }
}

/// Every stop the boundary walk reaches has a whole word to read.
pub open spec fn boundaries_wf(b: Seq<u8>) -> bool
    decreases b.len(),
{
    if b.len() == 0 {
        true
    } else if b.len() == 1 {
        false
    } else {
        let w = spec_le_u16(b, 0) % 0x1000;
        let rest = b.subrange(2, b.len() as int);
        if 2 * w >= rest.len() {
            true
        } else {
            boundaries_wf(rest.subrange(2 * w, rest.len() as int))
        }
    }
}

/// Decide whether the boundary walk stays well-formed: every stop it
/// reaches has a whole word left to read.  A payload that fails this must
/// not be handed to `remove_boundaries`.
pub fn boundaries_ok(bytes: &[u8]) -> (r: bool)
    ensures
        r == boundaries_wf(bytes@),
{
    let n = bytes.len();
    let mut pos: usize = 0;
    proof {
        assert(bytes@.skip(0) =~= bytes@);
    }
    while n - pos >= 2
        invariant
            n == bytes@.len(),
            pos <= n,
            boundaries_wf(bytes@) == boundaries_wf(bytes@.skip(pos as int)),
        decreases n - pos,
    {
        let ghost suffix = bytes@.skip(pos as int);
        let w = mask12(le_u16(bytes, pos));
        proof {
            assert(spec_le_u16(suffix, 0) == spec_le_u16(bytes@, pos as int));
        }
        let rest_len = n - pos - 2;
        if 2 * (w as usize) >= rest_len {
            proof {
                assert(boundaries_wf(suffix));
            }
            return true;
        }
        proof {
            let rest = suffix.subrange(2, suffix.len() as int);
            assert(rest.subrange(2 * (w as int), rest.len() as int) =~= bytes@.skip(
                pos + 2 + 2 * (w as int),
            ));
        }
        pos = pos + 2 + 2 * (w as usize);
    }
    pos == n
}

/// A payload without embedded boundaries — one whose leading boundary
/// word spans the whole rest, or nothing at all — passes through with
/// only that word removed: stripping is the identity on the payload
/// proper.
pub proof fn lemma_strip_no_embedded_boundary(b: Seq<u8>)
    requires
        b.len() == 0 || (b.len() >= 2 && 2 * (spec_le_u16(b, 0) % 0x1000) >= b.len() - 2),
    ensures
        b.len() == 0 ==> spec_strip_boundaries(b) == b,
        b.len() >= 2 ==> spec_strip_boundaries(b) == b.subrange(2, b.len() as int),
{
}

/// The run number, start time and title carried by a begin-run item.
#[derive(Debug, Clone)]
pub struct BeginRunItem {
    pub run: u32,
    pub start: u32,
    pub title: String,
}

impl BeginRunItem {
    /// The zeroed item with an empty title.
    pub fn new() -> (r: Self)
        ensures
            r.run == 0,
            r.start == 0,
            r.title@.len() == 0,
    {
        BeginRunItem { run: 0, start: 0, title: String::new() }
    }

    /// Parse a begin-run payload: run number, four skipped bytes, start
    /// time, four skipped bytes, then the title — UTF-8 text ending at the
    /// first zero byte or at the end of the payload.
    pub fn try_from(ring: RingItem) -> (r: Result<BeginRunItem, EvtItemError>)
        ensures
            ring.bytes@.len() < 16 ==> r == Err::<BeginRunItem, EvtItemError>(
                EvtItemError::ItemSizeError,
            ),
            ring.bytes@.len() >= 16 ==> ({
                let b = ring.bytes@;
                let title_bytes = b.subrange(16, b.len() as int);
                let cut = title_bytes.subrange(
                    0,
                    find_in(title_bytes, 0, 0, title_bytes.len() as int),
                );
                &&& (vstd::utf8::valid_utf8(cut) ==> (r matches Ok(item) && item.run
                    == spec_le_u32(b, 0) && item.start == spec_le_u32(b, 8)
                    && vstd::utf8::encode_utf8(item.title@) == cut))
                &&& (!vstd::utf8::valid_utf8(cut) ==> r == Err::<BeginRunItem, EvtItemError>(
                    EvtItemError::BadTitle,
                ))
            }),
    {
        if ring.bytes.len() < 16 {
            return Err(EvtItemError::ItemSizeError);
        }
        let run = le_u32(&ring.bytes, 0);
        let start = le_u32(&ring.bytes, 8);
        let blen = ring.bytes.len();
        let title_slice = &ring.bytes[16..blen];
        let nul = crate::pad_map::find_byte_from(title_slice, 0, 0);
        let cut = vstd::slice::slice_to_vec(&title_slice[0..nul]);
        match string_from_utf8(cut) {
            Some(title) => Ok(BeginRunItem { run, start, title }),
            None => Err(EvtItemError::BadTitle),
        }
    }
}

/// Relies on `String::from_utf8`: it succeeds exactly on valid UTF-8 and
/// the returned string holds exactly the given bytes.
#[verifier::external_body]
fn string_from_utf8(bytes: Vec<u8>) -> (r: Option<String>)
    ensures
        match r {
            Some(s) => vstd::utf8::valid_utf8(bytes@) && vstd::utf8::encode_utf8(s@) == bytes@,
            None => !vstd::utf8::valid_utf8(bytes@),
        },
{
    match String::from_utf8(bytes) {
        Ok(s) => Some(s),
        Err(_) => None,
    }
}

/// The stop time and elapsed seconds carried by an end-run item.
#[derive(Debug, Clone)]
pub struct EndRunItem {
    pub stop: u32,
    pub time: u32,
}

impl EndRunItem {
    /// The zeroed item.
    pub fn new() -> (r: Self)
        ensures
            r.stop == 0,
            r.time == 0,
    {
        EndRunItem { stop: 0, time: 0 }
    }

    /// Parse an end-run payload: stop time, then elapsed seconds.
    pub fn try_from(ring: RingItem) -> (r: Result<EndRunItem, EvtItemError>)
        ensures
            ring.bytes@.len() < 8 ==> r == Err::<EndRunItem, EvtItemError>(
                EvtItemError::ItemSizeError,
            ),
            ring.bytes@.len() >= 8 ==> (r matches Ok(item) && item.stop == spec_le_u32(
                ring.bytes@,
                0,
            ) && item.time == spec_le_u32(ring.bytes@, 4)),
    {
        if ring.bytes.len() < 8 {
            return Err(EvtItemError::ItemSizeError);
        }
        Ok(EndRunItem { stop: le_u32(&ring.bytes, 0), time: le_u32(&ring.bytes, 4) })
    }
}

/// The begin- and end-run records of one run, kept together.
#[derive(Debug, Clone)]
pub struct RunInfo {
    pub begin: BeginRunItem,
    pub end: EndRunItem,
}

impl RunInfo {
    /// Empty run information.
    pub fn new() -> (r: RunInfo)
        ensures
            r.begin.run == 0,
            r.begin.start == 0,
            r.begin.title@.len() == 0,
            r.end.stop == 0,
            r.end.time == 0,
    {
        RunInfo { begin: BeginRunItem::new(), end: EndRunItem::new() }
    }

    /// A line describing the begin of the run.
    pub fn print_begin(&self) -> (r: String)
        ensures
            r@ == "Run Number: "@ + spec_udec(self.begin.run as int) + " Title: "@
                + self.begin.title@,
    {
        let mut s = "Run Number: ".to_owned();
        let num = u32_to_string(self.begin.run);
        s.append(num.as_str());
        s.append(" Title: ");
        s.append(self.begin.title.as_str());
        s
    }

    /// A line describing the end of the run.
    pub fn print_end(&self) -> (r: String)
        ensures
            r@ == "Run Number: "@ + spec_udec(self.begin.run as int) + " Ellapsed Time: "@
                + spec_udec(self.end.time as int) + "s"@,
    {
        let mut s = "Run Number: ".to_owned();
        let num = u32_to_string(self.begin.run);
        s.append(num.as_str());
        s.append(" Ellapsed Time: ");
        let secs = u32_to_string(self.end.time);
        s.append(secs.as_str());
        s.append("s");
        s
    }
}

/// The counter block carried by a scalers item: its timing header and the
/// scaler values.
#[derive(Debug, Clone)]
pub struct ScalersItem {
    pub start_offset: u32,
    pub stop_offset: u32,
    pub timestamp: u32,
    pub incremental: u32,
    pub data: Vec<u32>,
}

impl ScalersItem {
    /// The zeroed item with no scalers.
    pub fn new() -> (r: ScalersItem)
        ensures
            r.start_offset == 0,
            r.stop_offset == 0,
            r.timestamp == 0,
            r.incremental == 0,
            r.data@.len() == 0,
    {
        ScalersItem { start_offset: 0, stop_offset: 0, timestamp: 0, incremental: 0, data: Vec::new() }
    }

    /// Parse a scalers payload: start offset, stop offset, timestamp, one
    /// skipped word, the scaler count, the incremental flag, then that
    /// many scaler values.
    pub fn try_from(ring: RingItem) -> (r: Result<ScalersItem, EvtItemError>)
        ensures
            ring.bytes@.len() < 24 ==> r == Err::<ScalersItem, EvtItemError>(
                EvtItemError::ItemSizeError,
            ),
            ring.bytes@.len() >= 24 ==> ({
                let b = ring.bytes@;
                let count = spec_le_u32(b, 16);
                &&& (24 + 4 * count > b.len() ==> r == Err::<ScalersItem, EvtItemError>(
                    EvtItemError::ItemSizeError,
                ))
                &&& (24 + 4 * count <= b.len() ==> (r matches Ok(item) && item.start_offset
                    == spec_le_u32(b, 0) && item.stop_offset == spec_le_u32(b, 4)
                    && item.timestamp == spec_le_u32(b, 8) && item.incremental == spec_le_u32(
                    b,
                    20,
                ) && item.data@.len() == count && (forall|i: int|
                    0 <= i < count ==> item.data@[i] == spec_le_u32(b, 24 + 4 * i))))
            }),
    {
        if ring.bytes.len() < 24 {
            return Err(EvtItemError::ItemSizeError);
        }
        let count = le_u32(&ring.bytes, 16);
        let blen = ring.bytes.len();
        if (count as u64) * 4 + 24 > blen as u64 {
            return Err(EvtItemError::ItemSizeError);
        }
        let mut data: Vec<u32> = Vec::new();
        let n = count as usize;
        let mut i: usize = 0;
        while i < n
            invariant
                n == spec_le_u32(ring.bytes@, 16),
                24 + 4 * n <= ring.bytes@.len(),
                ring.bytes@.len() == blen,
                i <= n,
                data@.len() == i,
                forall|j: int| 0 <= j < i ==> data@[j] == spec_le_u32(ring.bytes@, 24 + 4 * j),
            decreases n - i,
        {
            let v = le_u32(&ring.bytes, 24 + 4 * i);
            data.push(v);
            i = i + 1;
        }
        Ok(
            ScalersItem {
                start_offset: le_u32(&ring.bytes, 0),
                stop_offset: le_u32(&ring.bytes, 4),
                timestamp: le_u32(&ring.bytes, 8),
                incremental: le_u32(&ring.bytes, 20),
                data,
            },
        )
    }

    /// The header row written beside the scaler values: start offset, stop
    /// offset, timestamp, how many scalers, and the incremental flag.
    pub fn get_header_array(&self) -> (r: Vec<u32>)
        requires
            self.data@.len() <= u32::MAX,
        ensures
            r@ =~= seq![
                self.start_offset,
                self.stop_offset,
                self.timestamp,
                self.data@.len() as u32,
                self.incremental,
            ],
    {
        let mut r: Vec<u32> = Vec::new();
        r.push(self.start_offset);
        r.push(self.stop_offset);
        r.push(self.timestamp);
        r.push(self.data.len() as u32);
        r.push(self.incremental);
        r
    }
}

/// The physics-item count carried by a counter item.
#[derive(Debug, Clone)]
pub struct CounterItem {
    pub count: u64,
}

impl CounterItem {
    /// The zero count.
    pub fn new() -> (r: Self)
        ensures
            r.count == 0,
    {
        CounterItem { count: 0 }
    }

    /// Parse a counter payload: twelve skipped bytes, then the count.
    pub fn try_from(ring: RingItem) -> (r: Result<CounterItem, EvtItemError>)
        ensures
            ring.bytes@.len() < 20 ==> r == Err::<CounterItem, EvtItemError>(
                EvtItemError::ItemSizeError,
            ),
            ring.bytes@.len() >= 20 ==> (r matches Ok(item) && item.count == spec_le_u64(
                ring.bytes@,
                12,
            )),
    {
        if ring.bytes.len() < 20 {
            return Err(EvtItemError::ItemSizeError);
        }
        Ok(CounterItem { count: le_u64(&ring.bytes, 12) })
    }
}

/// The parse state of the flash-ADC segment: the traces filled so far, the
/// sample count and channel tally, and the read position.
#[verifier::ext_equal]
pub struct SisModel {
    pub traces: Seq<Seq<u16>>,
    pub samples: int,
    pub channels: int,
    pub pos: int,
}

/// Where sample pair `i` of a group's window sits relative to the group's
/// data start.  With the wrap flag clear, or a write pointer at or past
/// the window's end, pairs lie in file order.  Otherwise the recording
/// physically began right after the write pointer: the tail of the window
/// sits there, and the head wraps back to the data start.
pub open spec fn spec_pair_off(scount: int, pointer: int, wrap: bool, i: int) -> int {
    if !wrap || pointer + 1 >= scount {
        4 * i
    } else if i <= scount - pointer - 2 {
        4 * (pointer + 1 + i)
    } else {
        4 * (i - (scount - pointer - 1))
    }
}

/// The trace of the group's odd channel: the first word of each pair, low
/// twelve bits.
pub open spec fn spec_trace_odd(
    b: Seq<u8>,
    start: int,
    scount: int,
    pointer: int,
    wrap: bool,
) -> Seq<u16> {
    Seq::new(
        scount as nat,
        |i: int| (spec_le_u16(b, start + spec_pair_off(scount, pointer, wrap, i)) % 0x1000) as u16,
    )
}

/// The trace of the group's even channel: the second word of each pair,
/// low twelve bits.
pub open spec fn spec_trace_even(
    b: Seq<u8>,
    start: int,
    scount: int,
    pointer: int,
    wrap: bool,
) -> Seq<u16> {
    Seq::new(
        scount as nat,
        |i: int|
            (spec_le_u16(b, start + spec_pair_off(scount, pointer, wrap, i) + 2) % 0x1000) as u16,
    )
}

/// One group of the flash-ADC segment: skipped when not enabled; stopped
/// without fault on a bad group header or trailer; otherwise two traces
/// are read through the circular window and the state advances past the
/// trailer.  The boolean says whether the walk goes on to the next group.
pub open spec fn spec_sis_step(b: Seq<u8>, flags: u16, g: int, m: SisModel) -> Result<
    (SisModel, bool),
    EvtItemError,
> {
    if (flags >> (g as u16)) & 1 == 0 {
        Ok((m, true))
    } else {
        let m1 = SisModel { channels: m.channels + 2, ..m };
        if m.pos + 2 > b.len() {
            Err(EvtItemError::ItemSizeError)
        } else if spec_le_u16(b, m.pos) != 0xfadc {
            Ok((SisModel { pos: m.pos + 2, ..m1 }, false))
        } else if m.pos + 10 > b.len() {
            Err(EvtItemError::ItemSizeError)
        } else {
            let trigger = spec_le_u32(b, m.pos + 2) as u32;
            let scount = spec_le_u32(b, m.pos + 6);
            let start = m.pos + 10;
            if start + 4 * scount + 2 > b.len() {
                Err(EvtItemError::ItemSizeError)
            } else {
                let pointer = (trigger & 0x1FFFF) as int;
                let wrap = (trigger & 0x80000) != 0;
                let m2 = SisModel {
                    traces: m1.traces.update(2 * g, spec_trace_even(b, start, scount, pointer, wrap)).update(
                        2 * g + 1,
                        spec_trace_odd(b, start, scount, pointer, wrap),
                    ),
                    samples: scount,
                    channels: m1.channels,
                    pos: start + 4 * scount + 2,
                };
                if spec_le_u16(b, start + 4 * scount) != 0xFFFF {
                    Ok((m2, false))
                } else {
                    Ok((m2, true))
                }
            }
        }
    }
}

/// The walk over the four groups from group `g` on.
pub open spec fn spec_sis_groups(b: Seq<u8>, flags: u16, g: int, m: SisModel) -> Result<
    SisModel,
    EvtItemError,
>
    decreases 4 - g,
{
    if g < 0 || g >= 4 {
        Ok(m)
    } else {
        match spec_sis_step(b, flags, g, m) {
            Err(e) => Err(e),
            Ok((m2, go_on)) => if go_on {
                spec_sis_groups(b, flags, g + 1, m2)
            } else {
                Ok(m2)
            },
        }
    }
}

/// The trace sequences a flash-ADC item holds.
pub open spec fn traces_views(ts: Seq<Vec<u16>>) -> Seq<Seq<u16>> {
    Seq::new(ts.len(), |i: int| ts[i]@)
}

/// The parse state an item and a position stand for.
pub open spec fn sis_model(item: SIS3300Item, pos: int) -> SisModel {
    SisModel {
        traces: traces_views(item.traces@),
        samples: item.samples as int,
        channels: item.channels as int,
        pos,
    }
}

/// The untouched parse state at position `pos`: eight empty traces.
pub open spec fn spec_sis_init(pos: int) -> SisModel {
    SisModel { traces: Seq::new(8, |i: int| Seq::<u16>::empty()), samples: 0, channels: 0, pos }
}

/// The segment of the Struck SIS3300 flash ADC: eight channels read in
/// pairs through a circular memory window.
#[derive(Debug, Clone)]
pub struct SIS3300Item {
    pub traces: Vec<Vec<u16>>,
    pub samples: usize,
    pub channels: usize,
}

impl SIS3300Item {
    /// The empty segment: eight empty traces.
    pub fn new() -> (r: SIS3300Item)
        ensures
            r.traces@.len() == 8,
            forall|i: int| 0 <= i < 8 ==> (#[trigger] r.traces@[i])@.len() == 0,
            r.samples == 0,
            r.channels == 0,
    {
        let mut traces: Vec<Vec<u16>> = Vec::new();
        let mut i: usize = 0;
        while i < 8
            invariant
                i <= 8,
                traces@.len() == i,
                forall|j: int| 0 <= j < i ==> (#[trigger] traces@[j])@.len() == 0,
            decreases 8 - i,
        {
            traces.push(Vec::new());
            i = i + 1;
        }
        SIS3300Item { traces, samples: 0, channels: 0 }
    }

    /// Read the two traces of one enabled group through the circular
    /// window: sample pairs live at the offsets `spec_pair_off` names.
    fn read_group(
        bytes: &[u8],
        start: usize,
        scount: usize,
        pointer: usize,
        wrap: bool,
    ) -> (r: (Vec<u16>, Vec<u16>))
        requires
            start + 4 * scount <= bytes@.len(),
            pointer <= 0x1FFFF,
        ensures
            r.0@ == spec_trace_even(bytes@, start as int, scount as int, pointer as int, wrap),
            r.1@ == spec_trace_odd(bytes@, start as int, scount as int, pointer as int, wrap),
    {
        let blen = bytes.len();
        let mut even_t: Vec<u16> = Vec::new();
        let mut odd_t: Vec<u16> = Vec::new();
        if !wrap || pointer + 1 >= scount {
            let mut i: usize = 0;
            while i < scount
                invariant
                    start + 4 * scount <= bytes@.len(),
                    bytes@.len() == blen,
                    !wrap || pointer + 1 >= scount,
                    i <= scount,
                    even_t@.len() == i,
                    odd_t@.len() == i,
                    forall|k: int|
                        0 <= k < i ==> even_t@[k] == spec_trace_even(
                            bytes@,
                            start as int,
                            scount as int,
                            pointer as int,
                            wrap,
                        )[k] && odd_t@[k] == spec_trace_odd(
                            bytes@,
                            start as int,
                            scount as int,
                            pointer as int,
                            wrap,
                        )[k],
                decreases scount - i,
            {
                let hi = mask12(le_u16(bytes, start + 4 * i));
                let lo = mask12(le_u16(bytes, start + 4 * i + 2));
                odd_t.push(hi);
                even_t.push(lo);
                i = i + 1;
            }
        } else {
            let head = scount - pointer - 1;
            let mut i: usize = 0;
            while i < head
                invariant
                    start + 4 * scount <= bytes@.len(),
                    bytes@.len() == blen,
                    wrap && pointer + 1 < scount,
                    pointer <= 0x1FFFF,
                    head == scount - pointer - 1,
                    i <= head,
                    even_t@.len() == i,
                    odd_t@.len() == i,
                    forall|k: int|
                        0 <= k < i ==> even_t@[k] == spec_trace_even(
                            bytes@,
                            start as int,
                            scount as int,
                            pointer as int,
                            wrap,
                        )[k] && odd_t@[k] == spec_trace_odd(
                            bytes@,
                            start as int,
                            scount as int,
                            pointer as int,
                            wrap,
                        )[k],
                decreases head - i,
            {
                let hi = mask12(le_u16(bytes, start + 4 * (pointer + 1 + i)));
                let lo = mask12(le_u16(bytes, start + 4 * (pointer + 1 + i) + 2));
                odd_t.push(hi);
                even_t.push(lo);
                i = i + 1;
            }
            let mut j: usize = 0;
            while j < pointer + 1
                invariant
                    start + 4 * scount <= bytes@.len(),
                    bytes@.len() == blen,
                    wrap && pointer + 1 < scount,
                    pointer <= 0x1FFFF,
                    head == scount - pointer - 1,
                    j <= pointer + 1,
                    even_t@.len() == head + j,
                    odd_t@.len() == head + j,
                    forall|k: int|
                        0 <= k < head + j ==> even_t@[k] == spec_trace_even(
                            bytes@,
                            start as int,
                            scount as int,
                            pointer as int,
                            wrap,
                        )[k] && odd_t@[k] == spec_trace_odd(
                            bytes@,
                            start as int,
                            scount as int,
                            pointer as int,
                            wrap,
                        )[k],
                decreases pointer + 1 - j,
            {
                let hi = mask12(le_u16(bytes, start + 4 * j));
                let lo = mask12(le_u16(bytes, start + 4 * j + 2));
                odd_t.push(hi);
                even_t.push(lo);
                j = j + 1;
            }
        }
        proof {
            assert(even_t@ =~= spec_trace_even(
                bytes@,
                start as int,
                scount as int,
                pointer as int,
                wrap,
            ));
            assert(odd_t@ =~= spec_trace_odd(
                bytes@,
                start as int,
                scount as int,
                pointer as int,
                wrap,
            ));
        }
        (even_t, odd_t)
    }

    /// Handle one of the four groups, mirroring one step of the group
    /// walk; the flag in the result says whether the walk continues.
    fn process_group(&mut self, bytes: &[u8], pos: usize, flags: u16, g: usize) -> (r: Result<
        (usize, bool),
        EvtItemError,
    >)
        requires
            g < 4,
            pos <= bytes@.len(),
            old(self).traces@.len() == 8,
            old(self).channels <= usize::MAX - 2,
        ensures
            final(self).traces@.len() == 8,
            final(self).channels <= old(self).channels + 2,
            match r {
                Ok((new_pos, go_on)) => spec_sis_step(
                    bytes@,
                    flags,
                    g as int,
                    sis_model(*old(self), pos as int),
                ) == Ok::<(SisModel, bool), EvtItemError>(
                    (sis_model(*final(self), new_pos as int), go_on),
                ) && new_pos <= bytes@.len() && pos <= new_pos,
                Err(e) => spec_sis_step(bytes@, flags, g as int, sis_model(*old(self), pos as int))
                    == Err::<(SisModel, bool), EvtItemError>(e),
            },
    {
        let blen = bytes.len();
        if (flags >> (g as u16)) & 1 == 0 {
            proof {
                assert(spec_sis_step(bytes@, flags, g as int, sis_model(*self, pos as int))
                    == Ok::<(SisModel, bool), EvtItemError>(
                    (sis_model(*self, pos as int), true),
                ));
            }
            return Ok((pos, true));
        }
        self.channels = self.channels + 2;
        if pos > blen || blen - pos < 2 {
            return Err(EvtItemError::ItemSizeError);
        }
        let header = le_u16(bytes, pos);
        if header != 0xfadc {
            return Ok((pos + 2, false));
        }
        if blen - pos < 10 {
            return Err(EvtItemError::ItemSizeError);
        }
        let trigger = le_u32(bytes, pos + 2);
        let scount32 = le_u32(bytes, pos + 6);
        let start = pos + 10;
        if ((blen - start) as u64) < 4 * (scount32 as u64) + 2 {
            return Err(EvtItemError::ItemSizeError);
        }
        let scount = scount32 as usize;
        let pointer = (trigger & 0x1FFFF) as usize;
        proof {
            let t = trigger;
            assert((t & 0x1FFFF) <= 0x1FFFF) by (bit_vector);
        }
        let wrap = (trigger & 0x80000) != 0;
        let (even_t, odd_t) = Self::read_group(bytes, start, scount, pointer, wrap);
        self.traces.set(2 * g, even_t);
        self.traces.set(2 * g + 1, odd_t);
        self.samples = scount;
        let after = start + 4 * scount;
        let trailer = le_u16(bytes, after);
        proof {
            assert(traces_views(self.traces@) =~= traces_views(old(self).traces@).update(
                2 * g as int,
                spec_trace_even(bytes@, start as int, scount as int, pointer as int, wrap),
            ).update(
                2 * g as int + 1,
                spec_trace_odd(bytes@, start as int, scount as int, pointer as int, wrap),
            ));
        }
        if trailer != 0xffff {
            Ok((after + 2, false))
        } else {
            Ok((after + 2, true))
        }
    }

    /// Parse the whole flash-ADC segment: the group-enable bitmap and a
    /// register word, then each enabled group in turn.  A bad group header
    /// or trailer abandons the segment without fault; a short buffer is
    /// one.  Returns the position after the segment.
    pub fn extract_data(&mut self, bytes: &[u8], pos: usize) -> (r: Result<usize, EvtItemError>)
        requires
            old(self).traces@.len() == 8,
            old(self).channels <= usize::MAX - 8,
        ensures
            final(self).traces@.len() == 8,
            pos + 6 > bytes@.len() ==> r == Err::<usize, EvtItemError>(
                EvtItemError::ItemSizeError,
            ),
            pos + 6 <= bytes@.len() ==> ({
                let flags = spec_le_u16(bytes@, pos as int) as u16;
                let chain = spec_sis_groups(
                    bytes@,
                    flags,
                    0,
                    sis_model(*old(self), pos + 6),
                );
                match r {
                    Ok(new_pos) => chain == Ok::<SisModel, EvtItemError>(
                        sis_model(*final(self), new_pos as int),
                    ) && new_pos <= bytes@.len(),
                    Err(e) => chain == Err::<SisModel, EvtItemError>(e),
                }
            }),
    {
        let blen = bytes.len();
        if pos > blen || blen - pos < 6 {
            return Err(EvtItemError::ItemSizeError);
        }
        let flags = le_u16(bytes, pos);
        let mut cur = pos + 6;
        let mut g: usize = 0;
        let ghost m_init = sis_model(*old(self), pos + 6);
        while g < 4
            invariant
                g <= 4,
                pos + 6 <= bytes@.len(),
                cur <= bytes@.len(),
                self.traces@.len() == 8,
                self.channels <= usize::MAX - 8 + 2 * g,
                flags == spec_le_u16(bytes@, pos as int),
                m_init == sis_model(*old(self), pos + 6),
                spec_sis_groups(bytes@, flags, 0, m_init) == spec_sis_groups(
                    bytes@,
                    flags,
                    g as int,
                    sis_model(*self, cur as int),
                ),
            decreases 4 - g,
        {
            let ghost pre_model = sis_model(*self, cur as int);
            match self.process_group(bytes, cur, flags, g) {
                Ok((new_pos, go_on)) => {
                    proof {
                        assert(spec_sis_step(bytes@, flags, g as int, pre_model) == Ok::<
                            (SisModel, bool),
                            EvtItemError,
                        >((sis_model(*self, new_pos as int), go_on)));
                    }
                    cur = new_pos;
                    if !go_on {
                        proof {
                            assert(spec_sis_groups(bytes@, flags, g as int, pre_model) == Ok::<
                                SisModel,
                                EvtItemError,
                            >(sis_model(*self, cur as int)));
                        }
                        return Ok(cur);
                    }
                },
                Err(e) => {
                    proof {
                        assert(spec_sis_groups(bytes@, flags, g as int, pre_model) == Err::<
                            SisModel,
                            EvtItemError,
                        >(e));
                    }
                    return Err(e);
                },
            }
            g = g + 1;
        }
        Ok(cur)
    }
}

/// The low twelve bits of a word.
fn mask12(x: u16) -> (r: u16)
    ensures
        r == x % 0x1000,
{
    proof {
        assert(x & 0xfff == x % 0x1000) by (bit_vector);
    }
    x & 0xfff
}

/// The CAEN V977 coincidence register: a single 16-bit flag word.
#[derive(Debug, Clone)]
pub struct V977Item {
    pub coinc: u16,
}

impl V977Item {
    /// The zero register.
    pub fn new() -> (r: V977Item)
        ensures
            r.coinc == 0,
    {
        V977Item { coinc: 0 }
    }

    /// Read the register word at `pos`; returns the position after it.
    pub fn extract_data(&mut self, bytes: &[u8], pos: usize) -> (r: Result<usize, EvtItemError>)
        ensures
            pos + 2 > bytes@.len() ==> r == Err::<usize, EvtItemError>(
                EvtItemError::ItemSizeError,
            ) && final(self).coinc == old(self).coinc,
            pos + 2 <= bytes@.len() ==> r == Ok::<usize, EvtItemError>((pos + 2) as usize)
                && final(self).coinc == spec_le_u16(bytes@, pos as int),
    {
        let blen = bytes.len();
        if pos > blen || blen - pos < 2 {
            return Err(EvtItemError::ItemSizeError);
        }
        self.coinc = le_u16(bytes, pos);
        Ok(pos + 2)
    }
}

/// The physics record of one event in the auxiliary stream: the event
/// number and timestamp, then the flash-ADC segment and the coincidence
/// register, in that fixed stack order.
#[derive(Debug, Clone)]
pub struct PhysicsItem {
    pub event: u32,
    pub timestamp: u32,
    pub fadc: SIS3300Item,
    pub coinc: V977Item,
}

impl PhysicsItem {
    /// The empty record.
    pub fn new() -> (r: PhysicsItem)
        ensures
            r.event == 0,
            r.timestamp == 0,
            r.fadc.traces@.len() == 8,
            r.fadc.samples == 0,
            r.fadc.channels == 0,
            r.coinc.coinc == 0,
    {
        PhysicsItem { event: 0, timestamp: 0, fadc: SIS3300Item::new(), coinc: V977Item::new() }
    }

    /// Parse a physics payload, already stripped of boundary words: event
    /// number, timestamp, the flash-ADC tag and segment, then the
    /// coincidence tag and register.  A wrong tag is a stack-order fault.
    pub fn try_from(ring: RingItem) -> (r: Result<PhysicsItem, EvtItemError>)
        ensures
            ({
                let b = ring.bytes@;
                let flags = spec_le_u16(b, 10) as u16;
                let chain = spec_sis_groups(b, flags, 0, spec_sis_init(16));
                &&& (b.len() < 10 ==> r == Err::<PhysicsItem, EvtItemError>(
                    EvtItemError::ItemSizeError,
                ))
                &&& (b.len() >= 10 && spec_le_u16(b, 8) != 0x1903 ==> r == Err::<
                    PhysicsItem,
                    EvtItemError,
                >(EvtItemError::StackOrderError))
                &&& (b.len() >= 10 && spec_le_u16(b, 8) == 0x1903 && b.len() < 16 ==> r == Err::<
                    PhysicsItem,
                    EvtItemError,
                >(EvtItemError::ItemSizeError))
                &&& (b.len() >= 16 && spec_le_u16(b, 8) == 0x1903 ==> ({
                    &&& (chain matches Err(e) ==> r == Err::<PhysicsItem, EvtItemError>(e))
                    &&& (chain matches Ok(m) ==> {
                        &&& (m.pos + 2 > b.len() ==> r == Err::<PhysicsItem, EvtItemError>(
                            EvtItemError::ItemSizeError,
                        ))
                        &&& (m.pos + 2 <= b.len() && spec_le_u16(b, m.pos) != 0x977 ==> r == Err::<
                            PhysicsItem,
                            EvtItemError,
                        >(EvtItemError::StackOrderError))
                        &&& (m.pos + 2 <= b.len() && spec_le_u16(b, m.pos) == 0x977 && m.pos + 4
                            > b.len() ==> r == Err::<PhysicsItem, EvtItemError>(
                            EvtItemError::ItemSizeError,
                        ))
                        &&& (m.pos + 4 <= b.len() && spec_le_u16(b, m.pos) == 0x977 ==> (r
                            matches Ok(p) && p.event == spec_le_u32(b, 0) && p.timestamp
                            == spec_le_u32(b, 4) && traces_views(p.fadc.traces@) == m.traces
                            && p.fadc.samples == m.samples && p.fadc.channels == m.channels
                            && p.coinc.coinc == spec_le_u16(b, m.pos + 2)))
                    })
                }))
            }),
    {
        let blen = ring.bytes.len();
        if blen < 10 {
            return Err(EvtItemError::ItemSizeError);
        }
        let event = le_u32(&ring.bytes, 0);
        let timestamp = le_u32(&ring.bytes, 4);
        if le_u16(&ring.bytes, 8) != 0x1903 {
            return Err(EvtItemError::StackOrderError);
        }
        let mut fadc = SIS3300Item::new();
        proof {
            assert(sis_model(fadc, 16) =~~= spec_sis_init(16));
        }
        let pos = match fadc.extract_data(&ring.bytes, 10) {
            Ok(p) => p,
            Err(e) => {
                return Err(e);
            },
        };
        if blen - pos < 2 {
            return Err(EvtItemError::ItemSizeError);
        }
        if le_u16(&ring.bytes, pos) != 0x977 {
            return Err(EvtItemError::StackOrderError);
        }
        let mut coinc = V977Item::new();
        match coinc.extract_data(&ring.bytes, pos + 2) {
            Ok(_) => {},
            Err(e) => {
                return Err(e);
            },
        }
        Ok(PhysicsItem { event, timestamp, fadc, coinc })
    }

    /// The header row written beside the physics data: the event number
    /// and the timestamp.
    pub fn get_header_array(&self) -> (r: Vec<u32>)
        ensures
            r@ =~= seq![self.event, self.timestamp],
    {
        let mut r: Vec<u32> = Vec::new();
        r.push(self.event);
        r.push(self.timestamp);
        r
    }
}

} // verus!
