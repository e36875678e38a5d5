//! Assembly of frames with one event id into an event.
//!
//! An event holds one 512-sample waveform per mapped hardware address.
//! Frames contribute samples in order; a hardware coordinate without a pad
//! in the map is dropped silently, and of two samples landing on the same
//! pad and time bucket the later one wins.

use vstd::prelude::*;

use crate::constants::COBO_WITH_TIMESTAMP;
use crate::error::EventError;
use crate::graw_frame::{frame_data_valid, GrawData, GrawFrame};
use crate::pad_map::{keys_consistent, spec_uuid, spec_uuid_of, HardwareID, PadMap};

verus! {

broadcast use {vstd::std_specs::hash::group_hash_axioms, vstd::std_specs::vec::axiom_spec_len};

/// One waveform and the address it belongs to.
#[derive(Debug, Clone)]
pub struct TraceRow {
    pub hw: HardwareID,
    /// Amplitude per time bucket; always 512 entries.
    pub samples: Vec<i16>,
}

/// The coordinate number a sample `d` of a frame with coordinates `cobo`,
/// `asad` addresses.
pub open spec fn spec_datum_uuid(cobo: u8, asad: u8, d: GrawData) -> int {
    spec_uuid(cobo as int, asad as int, d.aget_id as int, d.channel as int)
}

/// The sample's coordinate has a pad in the map.
pub open spec fn datum_mapped(pm: Map<u64, HardwareID>, cobo: u8, asad: u8, d: GrawData) -> bool {
    pm.contains_key(spec_datum_uuid(cobo, asad, d) as u64)
}

/// The amplitude of the last sample of `data` that lands on coordinate
/// number `u` at time bucket `tb`, if any does.
pub open spec fn last_write(
    pm: Map<u64, HardwareID>,
    cobo: u8,
    asad: u8,
    data: Seq<GrawData>,
    u: int,
    tb: int,
) -> Option<i16>
    decreases data.len(),
{
    if data.len() == 0 {
        None
    } else {
        let d = data.last();
        if datum_mapped(pm, cobo, asad, d) && spec_datum_uuid(cobo, asad, d) == u
            && d.time_bucket_id == tb {
            Some(d.sample)
        } else {
            last_write(pm, cobo, asad, data.drop_last(), u, tb)
        }
    }
}

/// Some sample of `data` is mapped and lands on coordinate number `u`.
pub open spec fn any_mapped_to(
    pm: Map<u64, HardwareID>,
    cobo: u8,
    asad: u8,
    data: Seq<GrawData>,
    u: int,
) -> bool {
    exists|i: int|
        0 <= i < data.len() && datum_mapped(pm, cobo, asad, #[trigger] data[i]) && spec_datum_uuid(
            cobo,
            asad,
            data[i],
        ) == u
}

/// The coordinate number of row `i`.
pub open spec fn rows_uuid(rows: Seq<TraceRow>, i: int) -> int {
    spec_uuid_of(rows[i].hw)
}

/// Some row answers to coordinate number `u`.
pub open spec fn rows_has(rows: Seq<TraceRow>, u: int) -> bool {
    exists|i: int| 0 <= i < rows.len() && #[trigger] rows_uuid(rows, i) == u
}

/// The position of the row answering to `u`.
pub open spec fn rows_index_of(rows: Seq<TraceRow>, u: int) -> int {
    choose|i: int| 0 <= i < rows.len() && #[trigger] rows_uuid(rows, i) == u
}

/// The waveform of the row answering to `u`.
pub open spec fn rows_trace(rows: Seq<TraceRow>, u: int) -> Seq<i16> {
    rows[rows_index_of(rows, u)].samples@
}

/// The index mirrors the rows: every row is filed under its coordinate
/// number, every filed number points at its row, and every waveform spans
/// the 512 time buckets.
pub open spec fn rows_indexed(rows: Seq<TraceRow>, index: Map<u64, usize>) -> bool {
    &&& forall|i: int| 0 <= i < rows.len() ==> (#[trigger] rows[i]).samples@.len() == 512
    &&& forall|i: int| 0 <= i < rows.len() ==> 0 <= #[trigger] rows_uuid(rows, i) <= u64::MAX
    &&& forall|i: int|
        0 <= i < rows.len() ==> index.contains_key((#[trigger] rows_uuid(rows, i)) as u64)
            && index[rows_uuid(rows, i) as u64] == i
    &&& forall|u: u64|
        #[trigger] index.contains_key(u) ==> index[u] < rows.len() && rows_uuid(
            rows,
            index[u] as int,
        ) == u
}

/// Every row's address is the one the pad map files under the row's
/// coordinate number.
pub open spec fn rows_consistent(rows: Seq<TraceRow>, pm: Map<u64, HardwareID>) -> bool {
    forall|i: int|
        0 <= i < rows.len() ==> 0 <= #[trigger] rows_uuid(rows, i) <= u64::MAX
            && pm.contains_key(rows_uuid(rows, i) as u64) && pm[rows_uuid(rows, i) as u64]
            == rows[i].hw
}

/// `post` is `base` advanced by the samples of `data`: the rows of `base`
/// stand unchanged in place, a coordinate has a row exactly when `base`
/// had one or `data` maps a sample to it, and every waveform cell of a row
/// holds the last sample `data` wrote there, else what `base` held, else
/// zero.
pub open spec fn advanced_rows(
    post: Seq<TraceRow>,
    base: Seq<TraceRow>,
    pm: Map<u64, HardwareID>,
    cobo: u8,
    asad: u8,
    data: Seq<GrawData>,
) -> bool {
    &&& post.len() >= base.len()
    &&& forall|i: int| 0 <= i < base.len() ==> post[i].hw == base[i].hw
    &&& forall|u: int|
        #[trigger] rows_has(post, u) <==> rows_has(base, u) || any_mapped_to(
            pm,
            cobo,
            asad,
            data,
            u,
        )
    &&& forall|u: int, tb: int|
        rows_has(post, u) && 0 <= tb < 512 ==> rows_trace(post, u)[tb] == match #[trigger]
        last_write(pm, cobo, asad, data, u, tb) {
            Some(s) => s,
            None => if rows_has(base, u) {
                rows_trace(base, u)[tb]
            } else {
                0i16
            },
        }
    &&& rows_consistent(base, pm) ==> rows_consistent(post, pm)
}

/// In an indexed row sequence, a coordinate number names one row.
proof fn lemma_rows_index_unique(rows: Seq<TraceRow>, index: Map<u64, usize>, i: int)
    requires
        rows_indexed(rows, index),
        0 <= i < rows.len(),
    ensures
        rows_index_of(rows, rows_uuid(rows, i)) == i,
{
    let u = rows_uuid(rows, i);
    let j = rows_index_of(rows, u);
    assert(0 <= j < rows.len() && rows_uuid(rows, j) == u);
    assert(index[u as u64] == i && index[u as u64] == j);
}

/// A collection of traces with the same event id, one per mapped address.
#[derive(Debug)]
pub struct Event {
    /// How many frames have been appended.
    pub nframes: i32,
    /// Position of each coordinate number's row; kept aligned with `rows`
    /// by the well-formedness invariant.
    pub index: std::collections::HashMap<u64, usize>,
    /// One row per address that received a sample, in order of first
    /// appearance.
    pub rows: Vec<TraceRow>,
    /// Timestamp taken from frames of the ordinary controllers.
    pub timestamp: u64,
    /// Timestamp taken from frames of the controller synchronized with the
    /// auxiliary DAQ.
    pub timestampother: u64,
    pub event_id: u32,
}

impl Event {
    /// Some row answers to coordinate number `u`.
    pub open spec fn has_uuid(self, u: int) -> bool {
        rows_has(self.rows@, u)
    }

    /// The waveform of the row answering to `u`.
    pub open spec fn trace_of(self, u: int) -> Seq<i16> {
        rows_trace(self.rows@, u)
    }

    /// The index and the rows agree.
    pub open spec fn wf(self) -> bool {
        rows_indexed(self.rows@, self.index@)
    }

    /// Every row's address is what the pad map files under its number.
    pub open spec fn consistent_with(self, pm: Map<u64, HardwareID>) -> bool {
        rows_consistent(self.rows@, pm)
    }

    /// The empty event.
    pub fn empty() -> (ev: Event)
        ensures
            ev.wf(),
            ev.nframes == 0,
            ev.rows@.len() == 0,
            ev.timestamp == 0,
            ev.timestampother == 0,
            ev.event_id == 0,
    {
        Event {
            nframes: 0,
            index: std::collections::HashMap::new(),
            rows: Vec::new(),
            timestamp: 0,
            timestampother: 0,
            event_id: 0,
        }
    }

    /// Fold one frame into the event: adopt its event id if this is the
    /// first frame, refuse it if its id differs from the event's, record
    /// its timestamp in the slot its controller owns, and write every
    /// mapped sample into its pad's waveform at its time bucket, the last
    /// write winning.  Samples without a pad in the map are dropped.
    pub fn append_frame(&mut self, pad_map: &PadMap, frame: &GrawFrame) -> (r: Result<
        (),
        EventError,
    >)
        requires
            old(self).wf(),
            old(self).nframes < i32::MAX,
            frame_data_valid(frame.data@),
            keys_consistent(pad_map@),
        ensures
            r is Ok <==> old(self).nframes == 0 || frame.header.event_id == old(self).event_id,
            r is Err ==> *final(self) == *old(self) && r == Err::<(), EventError>(
                EventError::MismatchedEventID(frame.header.event_id, old(self).event_id),
            ),
            r is Ok ==> ({
                let pm = pad_map@;
                let cobo = frame.header.cobo_id;
                &&& final(self).wf()
                &&& final(self).nframes == old(self).nframes + 1
                &&& final(self).event_id == if old(self).nframes == 0 {
                    frame.header.event_id
                } else {
                    old(self).event_id
                }
                &&& final(self).timestampother == if cobo == COBO_WITH_TIMESTAMP {
                    frame.header.event_time
                } else {
                    old(self).timestampother
                }
                &&& final(self).timestamp == if cobo != COBO_WITH_TIMESTAMP {
                    frame.header.event_time
                } else {
                    old(self).timestamp
                }
                &&& advanced_rows(
                    final(self).rows@,
                    old(self).rows@,
                    pm,
                    cobo,
                    frame.header.asad_id,
                    frame.data@,
                )
            }),
    {
        if self.nframes == 0 {
            self.event_id = frame.header.event_id;
        } else if self.event_id != frame.header.event_id {
            return Err(EventError::MismatchedEventID(frame.header.event_id, self.event_id));
        }
        if frame.header.cobo_id == COBO_WITH_TIMESTAMP {
            self.timestampother = frame.header.event_time;
        } else {
            self.timestamp = frame.header.event_time;
        }
        let ghost pm = pad_map@;
        let ghost base = self.rows@;
        let cobo = frame.header.cobo_id;
        let asad = frame.header.asad_id;
        let n = frame.data.len();
        let mut k: usize = 0;
        while k < n
            invariant
                n == frame.data@.len(),
                k <= n,
                frame_data_valid(frame.data@),
                pm == pad_map@,
                keys_consistent(pm),
                cobo == frame.header.cobo_id,
                asad == frame.header.asad_id,
                self.nframes == old(self).nframes,
                self.event_id == if old(self).nframes == 0 {
                    frame.header.event_id
                } else {
                    old(self).event_id
                },
                self.timestampother == if cobo == COBO_WITH_TIMESTAMP {
                    frame.header.event_time
                } else {
                    old(self).timestampother
                },
                self.timestamp == if cobo != COBO_WITH_TIMESTAMP {
                    frame.header.event_time
                } else {
                    old(self).timestamp
                },
                old(self).nframes < i32::MAX,
                base == old(self).rows@,
                rows_indexed(self.rows@, self.index@),
                advanced_rows(self.rows@, base, pm, cobo, asad, frame.data@.take(k as int)),
            decreases n - k,
        {
            let ghost mid = self.rows@;
            let ghost d0 = frame.data@.take(k as int);
            let ghost d1 = frame.data@.take(k + 1);
            let datum = frame.data[k];
            proof {
                assert(d1.drop_last() =~= d0);
                assert(d1.last() == frame.data@[k as int]);
                assert(frame.data@[k as int].valid());
            }
            match pad_map.get_hardware_id(&cobo, &asad, &datum.aget_id, &datum.channel) {
                Some(hw_ref) => {
                    let hw = *hw_ref;
                    let uuid = crate::pad_map::generate_uuid(
                        &cobo,
                        &asad,
                        &datum.aget_id,
                        &datum.channel,
                    );
                    let ghost u0 = spec_datum_uuid(cobo, asad, datum);
                    let tb = datum.time_bucket_id as usize;
                    match self.index.get(&uuid) {
                        Some(i_ref) => {
                            let i = *i_ref;
                            proof {
                                lemma_rows_index_unique(mid, self.index@, i as int);
                            }
                            self.rows[i].samples[tb] = datum.sample;
                            proof {
                                lemma_step_existing(
                                    base,
                                    mid,
                                    self.rows@,
                                    self.index@,
                                    pm,
                                    cobo,
                                    asad,
                                    d0,
                                    d1,
                                    i as int,
                                );
                            }
                        },
                        None => {
                            proof {
                                assert(!rows_has(mid, u0)) by {
                                    if rows_has(mid, u0) {
                                        let j = rows_index_of(mid, u0);
                                        assert(0 <= j < mid.len() && rows_uuid(mid, j) == u0);
                                        assert(self.index@.contains_key(u0 as u64));
                                    }
                                }
                            }
                            let ghost index_mid = self.index@;
                            let mut samples: Vec<i16> = vec_of_zeros();
                            samples[tb] = datum.sample;
                            let i = self.rows.len();
                            self.rows.push(TraceRow { hw, samples });
                            self.index.insert(uuid, i);
                            proof {
                                assert(self.rows@.len() == vstd::std_specs::vec::spec_vec_len(
                                    &self.rows,
                                ));
                                assert(mid.len() < usize::MAX);
                                lemma_step_new_row(
                                    base,
                                    mid,
                                    self.rows@,
                                    index_mid,
                                    self.index@,
                                    pm,
                                    cobo,
                                    asad,
                                    d0,
                                    d1,
                                );
                            }
                        },
                    }
                },
                None => {
                    proof {
                        lemma_step_unmapped(base, mid, pm, cobo, asad, d0, d1);
                    }
                },
            }
            k = k + 1;
        }
        proof {
            assert(frame.data@.take(n as int) =~= frame.data@);
        }
        self.nframes = self.nframes + 1;
        Ok(())
    }

    /// Assemble an event from frames that share one event id: fold every
    /// frame in order, so that the event carries the common id, the two
    /// timestamps of the last frames of each controller kind, and one
    /// waveform per mapped coordinate holding the last sample written to
    /// each time bucket.  The first frame whose id differs from the first
    /// frame's stops assembly.
    pub fn new(pad_map: &PadMap, frames: &Vec<GrawFrame>) -> (r: Result<Event, EventError>)
        requires
            frames@.len() <= i32::MAX,
            all_frames_data_valid(frames@),
            keys_consistent(pad_map@),
        ensures
            r is Ok <==> frames_same_id(frames@),
            r is Err ==> ({
                let j = spec_first_mismatch(frames@, 0);
                &&& 0 <= j < frames@.len()
                &&& r == Err::<Event, EventError>(
                    EventError::MismatchedEventID(
                        frames@[j].header.event_id,
                        frames@[0].header.event_id,
                    ),
                )
            }),
            r matches Ok(ev) ==> ({
                let pm = pad_map@;
                &&& ev.wf()
                &&& ev.consistent_with(pm)
                &&& ev.nframes == frames@.len()
                &&& ev.event_id == if frames@.len() > 0 {
                    frames@[0].header.event_id
                } else {
                    0u32
                }
                &&& ev.timestampother == spec_last_ts_other(frames@)
                &&& ev.timestamp == spec_last_ts_main(frames@)
                &&& (forall|u: int| #[trigger]
                    ev.has_uuid(u) <==> frames_any_mapped(pm, frames@, u))
                &&& (forall|u: int, tb: int|
                    ev.has_uuid(u) && 0 <= tb < 512 ==> ev.trace_of(u)[tb] == match #[trigger]
                    frames_last_write(pm, frames@, u, tb) {
                        Some(s) => s,
                        None => 0i16,
                    })
            }),
    {
        let ghost pm = pad_map@;
        let mut event = Event::empty();
        let n = frames.len();
        let mut i: usize = 0;
        while i < n
            invariant
                n == frames@.len(),
                n <= i32::MAX,
                i <= n,
                pm == pad_map@,
                all_frames_data_valid(frames@),
                keys_consistent(pm),
                event.wf(),
                event.consistent_with(pm),
                event.nframes == i,
                event.event_id == if i > 0 {
                    frames@[0].header.event_id
                } else {
                    0u32
                },
                forall|j: int|
                    0 <= j < i ==> (#[trigger] frames@[j]).header.event_id
                        == frames@[0].header.event_id,
                event.timestampother == spec_last_ts_other(frames@.take(i as int)),
                event.timestamp == spec_last_ts_main(frames@.take(i as int)),
                forall|u: int| #[trigger]
                    rows_has(event.rows@, u) <==> frames_any_mapped(
                        pm,
                        frames@.take(i as int),
                        u,
                    ),
                forall|u: int, tb: int|
                    rows_has(event.rows@, u) && 0 <= tb < 512 ==> rows_trace(event.rows@, u)[tb]
                        == match #[trigger] frames_last_write(
                        pm,
                        frames@.take(i as int),
                        u,
                        tb,
                    ) {
                        Some(s) => s,
                        None => 0i16,
                    },
            decreases n - i,
        {
            let ghost prev = event.rows@;
            let frame = &frames[i];
            proof {
                assert(frames@.take(i + 1).drop_last() =~= frames@.take(i as int));
                assert(frames@.take(i + 1).last() == frames@[i as int]);
                assert(frame_data_valid(frames@[i as int].data@));
            }
            match event.append_frame(pad_map, frame) {
                Ok(()) => {},
                Err(e) => {
                    proof {
                        assert(i > 0 && frames@[i as int].header.event_id
                            != frames@[0].header.event_id);
                        lemma_first_mismatch_found(frames@, i as int);
                    }
                    return Err(e);
                },
            }
            proof {
                lemma_frames_step(prev, event.rows@, pm, frames@, i as int);
            }
            i = i + 1;
        }
        proof {
            assert(frames@.take(n as int) =~= frames@);
            if !frames_same_id(frames@) {
                let j = choose|j: int|
                    0 <= j < frames@.len() && (#[trigger] frames@[j]).header.event_id
                        != frames@[0].header.event_id;
                assert(frames@[j].header.event_id == frames@[0].header.event_id);
            }
        }
        Ok(event)
    }

    /// Turn the event into its output matrix: one row per mapped channel
    /// holding controller, board, chip, channel and pad, then the 512
    /// amplitudes of its waveform.
    pub fn convert_to_data_matrix(self) -> (m: Vec<Vec<i16>>)
        requires
            self.wf(),
            forall|i: int| 0 <= i < self.rows@.len() ==> hw_fits_i16((#[trigger] self.rows@[i]).hw),
        ensures
            m@.len() == self.rows@.len(),
            forall|i: int|
                0 <= i < m@.len() ==> {
                    let hw = self.rows@[i].hw;
                    &&& (#[trigger] m@[i])@.len() == 517
                    &&& m@[i]@[0] == hw.cobo_id as i16
                    &&& m@[i]@[1] == hw.asad_id as i16
                    &&& m@[i]@[2] == hw.aget_id as i16
                    &&& m@[i]@[3] == hw.channel as i16
                    &&& m@[i]@[4] == hw.pad_id as i16
                    &&& forall|tb: int|
                        0 <= tb < 512 ==> m@[i]@[5 + tb] == self.rows@[i].samples@[tb]
                },
    {
        let mut matrix: Vec<Vec<i16>> = Vec::new();
        let nrows = self.rows.len();
        let mut i: usize = 0;
        while i < nrows
            invariant
                nrows == self.rows@.len(),
                i <= nrows,
                self.wf(),
                forall|j: int|
                    0 <= j < self.rows@.len() ==> hw_fits_i16((#[trigger] self.rows@[j]).hw),
                matrix@.len() == i,
                forall|j: int|
                    0 <= j < i ==> {
                        let hw = self.rows@[j].hw;
                        &&& (#[trigger] matrix@[j])@.len() == 517
                        &&& matrix@[j]@[0] == hw.cobo_id as i16
                        &&& matrix@[j]@[1] == hw.asad_id as i16
                        &&& matrix@[j]@[2] == hw.aget_id as i16
                        &&& matrix@[j]@[3] == hw.channel as i16
                        &&& matrix@[j]@[4] == hw.pad_id as i16
                        &&& forall|tb: int|
                            0 <= tb < 512 ==> matrix@[j]@[5 + tb] == self.rows@[j].samples@[tb]
                    },
            decreases nrows - i,
        {
            let row = &self.rows[i];
            let mut line: Vec<i16> = Vec::new();
            line.push(row.hw.cobo_id as i16);
            line.push(row.hw.asad_id as i16);
            line.push(row.hw.aget_id as i16);
            line.push(row.hw.channel as i16);
            line.push(row.hw.pad_id as i16);
            let mut tb: usize = 0;
            while tb < 512
                invariant
                    0 <= i < self.rows@.len(),
                    *row == self.rows@[i as int],
                    self.rows@[i as int].samples@.len() == 512,
                    tb <= 512,
                    line@.len() == 5 + tb,
                    line@[0] == self.rows@[i as int].hw.cobo_id as i16,
                    line@[1] == self.rows@[i as int].hw.asad_id as i16,
                    line@[2] == self.rows@[i as int].hw.aget_id as i16,
                    line@[3] == self.rows@[i as int].hw.channel as i16,
                    line@[4] == self.rows@[i as int].hw.pad_id as i16,
                    forall|t: int| 0 <= t < tb ==> line@[5 + t] == self.rows@[i as int].samples@[t],
                decreases 512 - tb,
            {
                line.push(row.samples[tb]);
                tb = tb + 1;
            }
            matrix.push(line);
            i = i + 1;
        }
        matrix
    }
}

/// The five coordinate columns of the output matrix hold 16-bit values.
pub open spec fn hw_fits_i16(hw: HardwareID) -> bool {
    hw.cobo_id <= 0x7FFF && hw.asad_id <= 0x7FFF && hw.aget_id <= 0x7FFF && hw.channel <= 0x7FFF
        && hw.pad_id <= 0x7FFF
}

/// Once a frame disagrees with the first frame's event id, the run has a
/// first disagreeing frame no later than it.
proof fn lemma_first_mismatch_found(frames: Seq<GrawFrame>, i: int)
    requires
        0 <= i < frames.len(),
        frames[i].header.event_id != frames[0].header.event_id,
        forall|j: int|
            0 <= j < i ==> (#[trigger] frames[j]).header.event_id == frames[0].header.event_id,
    ensures
        spec_first_mismatch(frames, 0) == i,
{
    lemma_first_mismatch_from(frames, 0, i);
}

proof fn lemma_first_mismatch_from(frames: Seq<GrawFrame>, k: int, i: int)
    requires
        0 <= k <= i < frames.len(),
        frames[i].header.event_id != frames[0].header.event_id,
        forall|j: int|
            k <= j < i ==> (#[trigger] frames[j]).header.event_id == frames[0].header.event_id,
    ensures
        spec_first_mismatch(frames, k) == i,
    decreases i - k,
{
    if k < i {
        lemma_first_mismatch_from(frames, k + 1, i);
    }
}

/// All frames of a run carry only range-checked samples.
pub open spec fn all_frames_data_valid(frames: Seq<GrawFrame>) -> bool {
    forall|i: int| 0 <= i < frames.len() ==> frame_data_valid((#[trigger] frames[i]).data@)
}

/// Every frame carries the event id of the first.
pub open spec fn frames_same_id(frames: Seq<GrawFrame>) -> bool {
    forall|i: int|
        0 <= i < frames.len() ==> (#[trigger] frames[i]).header.event_id
            == frames[0].header.event_id
}

/// The first position whose frame disagrees with the first frame's event
/// id, or the length when all agree.
pub open spec fn spec_first_mismatch(frames: Seq<GrawFrame>, i: int) -> int
    decreases frames.len() - i,
{
    if i >= frames.len() {
        frames.len() as int
    } else if frames[i].header.event_id != frames[0].header.event_id {
        i
    } else {
        spec_first_mismatch(frames, i + 1)
    }
}

/// The timestamp of the last frame taken by the synchronized controller,
/// or zero when it took none.
pub open spec fn spec_last_ts_other(frames: Seq<GrawFrame>) -> u64
    decreases frames.len(),
{
    if frames.len() == 0 {
        0u64
    } else if frames.last().header.cobo_id == COBO_WITH_TIMESTAMP {
        frames.last().header.event_time
    } else {
        spec_last_ts_other(frames.drop_last())
    }
}

/// The timestamp of the last frame taken by an ordinary controller, or
/// zero when there was none.
pub open spec fn spec_last_ts_main(frames: Seq<GrawFrame>) -> u64
    decreases frames.len(),
{
    if frames.len() == 0 {
        0u64
    } else if frames.last().header.cobo_id != COBO_WITH_TIMESTAMP {
        frames.last().header.event_time
    } else {
        spec_last_ts_main(frames.drop_last())
    }
}

/// Some frame of the run maps a sample to coordinate number `u`.
pub open spec fn frames_any_mapped(
    pm: Map<u64, HardwareID>,
    frames: Seq<GrawFrame>,
    u: int,
) -> bool {
    exists|i: int|
        0 <= i < frames.len() && any_mapped_to(
            pm,
            (#[trigger] frames[i]).header.cobo_id,
            frames[i].header.asad_id,
            frames[i].data@,
            u,
        )
}

/// The amplitude of the last sample any frame of the run writes to
/// coordinate `u` at time bucket `tb`: later frames win, and within a
/// frame later samples win.
pub open spec fn frames_last_write(
    pm: Map<u64, HardwareID>,
    frames: Seq<GrawFrame>,
    u: int,
    tb: int,
) -> Option<i16>
    decreases frames.len(),
{
    if frames.len() == 0 {
        None
    } else {
        match last_write(
            pm,
            frames.last().header.cobo_id,
            frames.last().header.asad_id,
            frames.last().data@,
            u,
            tb,
        ) {
            Some(s) => Some(s),
            None => frames_last_write(pm, frames.drop_last(), u, tb),
        }
    }
}

/// A coordinate no frame maps to is never written by any frame.
proof fn lemma_frames_no_write(
    pm: Map<u64, HardwareID>,
    frames: Seq<GrawFrame>,
    u: int,
    tb: int,
)
    requires
        !frames_any_mapped(pm, frames, u),
    ensures
        frames_last_write(pm, frames, u, tb) is None,
    decreases frames.len(),
{
    if frames.len() > 0 {
        let f = frames.last();
        assert(frames[frames.len() - 1] == f);
        if any_mapped_to(pm, f.header.cobo_id, f.header.asad_id, f.data@, u) {
            assert(frames_any_mapped(pm, frames, u));
        }
        lemma_no_write_without_mapping(pm, f.header.cobo_id, f.header.asad_id, f.data@, u, tb);
        assert forall|i: int|
            0 <= i < frames.drop_last().len() implies !any_mapped_to(
            pm,
            (#[trigger] frames.drop_last()[i]).header.cobo_id,
            frames.drop_last()[i].header.asad_id,
            frames.drop_last()[i].data@,
            u,
        ) by {
            assert(frames.drop_last()[i] == frames[i]);
            if any_mapped_to(
                pm,
                frames[i].header.cobo_id,
                frames[i].header.asad_id,
                frames[i].data@,
                u,
            ) {
                assert(frames_any_mapped(pm, frames, u));
            }
        }
        lemma_frames_no_write(pm, frames.drop_last(), u, tb);
    }
}

/// Folding one more frame into rows that track a prefix of the run yields
/// rows that track the prefix extended by that frame.
proof fn lemma_frames_step(
    prev: Seq<TraceRow>,
    cur: Seq<TraceRow>,
    pm: Map<u64, HardwareID>,
    frames: Seq<GrawFrame>,
    i: int,
)
    requires
        0 <= i < frames.len(),
        advanced_rows(
            cur,
            prev,
            pm,
            frames[i].header.cobo_id,
            frames[i].header.asad_id,
            frames[i].data@,
        ),
        forall|u: int| #[trigger]
            rows_has(prev, u) <==> frames_any_mapped(pm, frames.take(i), u),
        forall|u: int, tb: int|
            rows_has(prev, u) && 0 <= tb < 512 ==> rows_trace(prev, u)[tb] == match #[trigger]
            frames_last_write(pm, frames.take(i), u, tb) {
                Some(s) => s,
                None => 0i16,
            },
    ensures
        forall|u: int| #[trigger]
            rows_has(cur, u) <==> frames_any_mapped(pm, frames.take(i + 1), u),
        forall|u: int, tb: int|
            rows_has(cur, u) && 0 <= tb < 512 ==> rows_trace(cur, u)[tb] == match #[trigger]
            frames_last_write(pm, frames.take(i + 1), u, tb) {
                Some(s) => s,
                None => 0i16,
            },
{
    let f = frames[i];
    let t0 = frames.take(i);
    let t1 = frames.take(i + 1);
    assert(t1.drop_last() =~= t0);
    assert(t1.last() == f);
    let cobo = f.header.cobo_id;
    let asad = f.header.asad_id;
    assert forall|u: int| #[trigger]
        rows_has(cur, u) <==> frames_any_mapped(pm, t1, u) by {
        if rows_has(cur, u) {
            if any_mapped_to(pm, cobo, asad, f.data@, u) {
                assert(t1[t1.len() - 1] == f);
                assert(frames_any_mapped(pm, t1, u));
            } else {
                assert(rows_has(prev, u));
                assert(frames_any_mapped(pm, t0, u));
                let j = choose|j: int|
                    0 <= j < t0.len() && any_mapped_to(
                        pm,
                        (#[trigger] t0[j]).header.cobo_id,
                        t0[j].header.asad_id,
                        t0[j].data@,
                        u,
                    );
                assert(t1[j] == t0[j]);
                assert(frames_any_mapped(pm, t1, u));
            }
        }
        if frames_any_mapped(pm, t1, u) {
            let j = choose|j: int|
                0 <= j < t1.len() && any_mapped_to(
                    pm,
                    (#[trigger] t1[j]).header.cobo_id,
                    t1[j].header.asad_id,
                    t1[j].data@,
                    u,
                );
            if j < t0.len() {
                assert(t0[j] == t1[j]);
                assert(frames_any_mapped(pm, t0, u));
                assert(rows_has(prev, u));
            } else {
                assert(t1[j] == f);
                assert(any_mapped_to(pm, cobo, asad, f.data@, u));
            }
            assert(rows_has(cur, u));
        }
    }
    assert forall|u: int, tb: int|
        rows_has(cur, u) && 0 <= tb < 512 implies rows_trace(cur, u)[tb] == match #[trigger]
        frames_last_write(pm, t1, u, tb) {
        Some(s) => s,
        None => 0i16,
    } by {
        match last_write(pm, cobo, asad, f.data@, u, tb) {
            Some(s) => {
                assert(rows_trace(cur, u)[tb] == s);
                assert(frames_last_write(pm, t1, u, tb) == Some(s));
            },
            None => {
                assert(frames_last_write(pm, t1, u, tb) == frames_last_write(pm, t0, u, tb));
                if rows_has(prev, u) {
                    assert(rows_trace(cur, u)[tb] == rows_trace(prev, u)[tb]);
                } else {
                    assert(rows_trace(cur, u)[tb] == 0i16);
                    assert(!frames_any_mapped(pm, t0, u));
                    lemma_frames_no_write(pm, t0, u, tb);
                }
            },
        }
    }
}

/// A coordinate no sample maps to is never written.
proof fn lemma_no_write_without_mapping(
    pm: Map<u64, HardwareID>,
    cobo: u8,
    asad: u8,
    data: Seq<GrawData>,
    u: int,
    tb: int,
)
    requires
        !any_mapped_to(pm, cobo, asad, data, u),
    ensures
        last_write(pm, cobo, asad, data, u, tb) is None,
    decreases data.len(),
{
    if data.len() > 0 {
        let d = data.last();
        assert(data[data.len() - 1] == d);
        if datum_mapped(pm, cobo, asad, d) && spec_datum_uuid(cobo, asad, d) == u {
            assert(any_mapped_to(pm, cobo, asad, data, u));
        }
        assert forall|i: int|
            0 <= i < data.drop_last().len() && datum_mapped(
                pm,
                cobo,
                asad,
                #[trigger] data.drop_last()[i],
            ) implies spec_datum_uuid(cobo, asad, data.drop_last()[i]) != u by {
            assert(data.drop_last()[i] == data[i]);
            if spec_datum_uuid(cobo, asad, data[i]) == u {
                assert(any_mapped_to(pm, cobo, asad, data, u));
            }
        }
        lemma_no_write_without_mapping(pm, cobo, asad, data.drop_last(), u, tb);
    }
}

/// Extending the sample run by one sample leaves earlier mappings in
/// place: what `d0` maps, `d1` maps too.
proof fn lemma_extend_mappings(
    pm: Map<u64, HardwareID>,
    cobo: u8,
    asad: u8,
    d0: Seq<GrawData>,
    d1: Seq<GrawData>,
)
    requires
        d1.len() == d0.len() + 1,
        d1.drop_last() == d0,
    ensures
        forall|u: int| #[trigger]
            any_mapped_to(pm, cobo, asad, d0, u) ==> any_mapped_to(pm, cobo, asad, d1, u),
        forall|u: int| #[trigger]
            any_mapped_to(pm, cobo, asad, d1, u) ==> any_mapped_to(pm, cobo, asad, d0, u) || (
            datum_mapped(pm, cobo, asad, d1.last()) && spec_datum_uuid(cobo, asad, d1.last())
                == u),
{
    assert forall|u: int| #[trigger]
        any_mapped_to(pm, cobo, asad, d0, u) implies any_mapped_to(pm, cobo, asad, d1, u) by {
        let j = choose|j: int|
            0 <= j < d0.len() && datum_mapped(pm, cobo, asad, #[trigger] d0[j]) && spec_datum_uuid(
                cobo,
                asad,
                d0[j],
            ) == u;
        assert(d1[j] == d0[j]);
        assert(datum_mapped(pm, cobo, asad, d1[j]));
    }
    assert forall|u: int| #[trigger]
        any_mapped_to(pm, cobo, asad, d1, u) implies any_mapped_to(pm, cobo, asad, d0, u) || (
    datum_mapped(pm, cobo, asad, d1.last()) && spec_datum_uuid(cobo, asad, d1.last()) == u) by {
        let j = choose|j: int|
            0 <= j < d1.len() && datum_mapped(pm, cobo, asad, #[trigger] d1[j]) && spec_datum_uuid(
                cobo,
                asad,
                d1[j],
            ) == u;
        if j < d0.len() {
            assert(d0[j] == d1[j]);
            assert(datum_mapped(pm, cobo, asad, d0[j]));
        } else {
            assert(d1[j] == d1.last());
        }
    }
}

/// Extending the sample run by one unmapped sample changes neither which
/// coordinates are written nor what is written where.
proof fn lemma_step_unmapped(
    base: Seq<TraceRow>,
    mid: Seq<TraceRow>,
    pm: Map<u64, HardwareID>,
    cobo: u8,
    asad: u8,
    d0: Seq<GrawData>,
    d1: Seq<GrawData>,
)
    requires
        advanced_rows(mid, base, pm, cobo, asad, d0),
        d1.len() == d0.len() + 1,
        d1.drop_last() == d0,
        !datum_mapped(pm, cobo, asad, d1.last()),
    ensures
        advanced_rows(mid, base, pm, cobo, asad, d1),
{
    lemma_extend_mappings(pm, cobo, asad, d0, d1);
    assert forall|u: int, tb: int| #[trigger]
        last_write(pm, cobo, asad, d1, u, tb) == last_write(pm, cobo, asad, d0, u, tb) by {
        assert(d1.drop_last() == d0);
    }
}

/// After writing the sample into the row its coordinate already owns, the
/// rows track the run extended by that sample.
proof fn lemma_step_existing(
    base: Seq<TraceRow>,
    mid: Seq<TraceRow>,
    post: Seq<TraceRow>,
    index: Map<u64, usize>,
    pm: Map<u64, HardwareID>,
    cobo: u8,
    asad: u8,
    d0: Seq<GrawData>,
    d1: Seq<GrawData>,
    i: int,
)
    requires
        advanced_rows(mid, base, pm, cobo, asad, d0),
        rows_indexed(mid, index),
        d1.len() == d0.len() + 1,
        d1.drop_last() == d0,
        d1.last().valid(),
        datum_mapped(pm, cobo, asad, d1.last()),
        0 <= i < mid.len(),
        rows_uuid(mid, i) == spec_datum_uuid(cobo, asad, d1.last()),
        post.len() == mid.len(),
        forall|j: int| 0 <= j < mid.len() && j != i ==> post[j] == mid[j],
        post[i].hw == mid[i].hw,
        post[i].samples@ == mid[i].samples@.update(
            d1.last().time_bucket_id as int,
            d1.last().sample,
        ),
    ensures
        advanced_rows(post, base, pm, cobo, asad, d1),
        rows_indexed(post, index),
{
    let d = d1.last();
    let u0 = spec_datum_uuid(cobo, asad, d);
    assert(d1[d1.len() - 1] == d);
    lemma_extend_mappings(pm, cobo, asad, d0, d1);
    assert(forall|j: int| 0 <= j < post.len() ==> post[j].hw == mid[j].hw);
    assert(forall|j: int|
        0 <= j < post.len() ==> #[trigger] rows_uuid(post, j) == rows_uuid(mid, j));
    assert forall|u: int| #[trigger] rows_has(post, u) implies rows_has(mid, u) by {
        let j = choose|j: int| 0 <= j < post.len() && #[trigger] rows_uuid(post, j) == u;
        assert(rows_uuid(mid, j) == u);
    }
    assert forall|u: int| #[trigger] rows_has(mid, u) implies rows_has(post, u) by {
        let j = choose|j: int| 0 <= j < mid.len() && #[trigger] rows_uuid(mid, j) == u;
        assert(rows_uuid(post, j) == u);
    }
    assert(rows_has(mid, u0)) by {
        assert(rows_uuid(mid, i) == u0);
    }
    assert(any_mapped_to(pm, cobo, asad, d1, u0)) by {
        assert(datum_mapped(pm, cobo, asad, d1[d1.len() - 1]));
    }
    assert forall|u: int| #[trigger]
        rows_has(post, u) <==> rows_has(base, u) || any_mapped_to(pm, cobo, asad, d1, u) by {
        if rows_has(post, u) {
            assert(rows_has(mid, u));
            assert(rows_has(base, u) || any_mapped_to(pm, cobo, asad, d0, u));
        }
        if rows_has(base, u) || any_mapped_to(pm, cobo, asad, d1, u) {
            if any_mapped_to(pm, cobo, asad, d1, u) && !any_mapped_to(pm, cobo, asad, d0, u) {
                assert(u == u0);
                assert(rows_has(mid, u0));
            } else {
                assert(rows_has(mid, u));
            }
            assert(rows_has(post, u));
        }
    }
    assert(rows_indexed(post, index)) by {
        assert forall|j: int| 0 <= j < post.len() implies (#[trigger] post[j]).samples@.len()
            == 512 by {
            assert(mid[j].samples@.len() == 512);
        }
    }
    assert forall|u: int, tb: int|
        rows_has(post, u) && 0 <= tb < 512 implies rows_trace(post, u)[tb] == match #[trigger]
        last_write(pm, cobo, asad, d1, u, tb) {
        Some(s) => s,
        None => if rows_has(base, u) {
            rows_trace(base, u)[tb]
        } else {
            0i16
        },
    } by {
        let j = rows_index_of(post, u);
        assert(0 <= j < post.len() && rows_uuid(post, j) == u);
        lemma_rows_index_unique(post, index, j);
        assert(rows_uuid(mid, j) == u);
        lemma_rows_index_unique(mid, index, j);
        assert(rows_has(mid, u));
        assert(rows_trace(mid, u) == mid[j].samples@);
        assert(rows_trace(post, u) == post[j].samples@);
        if u == u0 {
            assert(j == i) by {
                assert(rows_uuid(mid, i) == u0);
                lemma_rows_index_unique(mid, index, i);
            }
            if tb == d.time_bucket_id {
                assert(rows_trace(post, u)[tb] == d.sample);
                assert(last_write(pm, cobo, asad, d1, u, tb) == Some(d.sample));
            } else {
                assert(rows_trace(post, u)[tb] == rows_trace(mid, u)[tb]);
                assert(last_write(pm, cobo, asad, d1, u, tb) == last_write(
                    pm,
                    cobo,
                    asad,
                    d0,
                    u,
                    tb,
                ));
            }
        } else {
            assert(j != i) by {
                assert(rows_uuid(mid, i) == u0);
            }
            assert(post[j] == mid[j]);
            assert(rows_trace(post, u)[tb] == rows_trace(mid, u)[tb]);
            assert(last_write(pm, cobo, asad, d1, u, tb) == last_write(pm, cobo, asad, d0, u, tb));
        }
    }
    assert(rows_consistent(base, pm) ==> rows_consistent(post, pm)) by {
        if rows_consistent(base, pm) {
            assert(rows_consistent(mid, pm));
            assert forall|j: int|
                0 <= j < post.len() implies 0 <= #[trigger] rows_uuid(post, j) <= u64::MAX
                && pm.contains_key(rows_uuid(post, j) as u64) && pm[rows_uuid(post, j) as u64]
                == post[j].hw by {
                assert(rows_uuid(post, j) == rows_uuid(mid, j));
                assert(post[j].hw == mid[j].hw);
            }
        }
    }
}

/// After opening a fresh row for a coordinate seen for the first time, the
/// rows track the run extended by that sample.
proof fn lemma_step_new_row(
    base: Seq<TraceRow>,
    mid: Seq<TraceRow>,
    post: Seq<TraceRow>,
    index_mid: Map<u64, usize>,
    index_post: Map<u64, usize>,
    pm: Map<u64, HardwareID>,
    cobo: u8,
    asad: u8,
    d0: Seq<GrawData>,
    d1: Seq<GrawData>,
)
    requires
        advanced_rows(mid, base, pm, cobo, asad, d0),
        rows_indexed(mid, index_mid),
        keys_consistent(pm),
        d1.len() == d0.len() + 1,
        d1.drop_last() == d0,
        d1.last().valid(),
        datum_mapped(pm, cobo, asad, d1.last()),
        !rows_has(mid, spec_datum_uuid(cobo, asad, d1.last())),
        0 <= spec_datum_uuid(cobo, asad, d1.last()) <= u64::MAX,
        post.len() == mid.len() + 1,
        forall|j: int| 0 <= j < mid.len() ==> post[j] == mid[j],
        post[mid.len() as int].hw == pm[spec_datum_uuid(cobo, asad, d1.last()) as u64],
        post[mid.len() as int].samples@.len() == 512,
        forall|tb: int|
            0 <= tb < 512 ==> post[mid.len() as int].samples@[tb] == (
            if tb == d1.last().time_bucket_id {
                d1.last().sample
            } else {
                0i16
            }),
        index_post == index_mid.insert(
            spec_datum_uuid(cobo, asad, d1.last()) as u64,
            mid.len() as usize,
        ),
        mid.len() < usize::MAX,
        base.len() <= mid.len(),
    ensures
        advanced_rows(post, base, pm, cobo, asad, d1),
        rows_indexed(post, index_post),
{
    let d = d1.last();
    let u0 = spec_datum_uuid(cobo, asad, d);
    let n = mid.len() as int;
    assert(d1[d1.len() - 1] == d);
    lemma_extend_mappings(pm, cobo, asad, d0, d1);
    assert(spec_uuid_of(pm[u0 as u64]) == u0 as u64);
    assert(rows_uuid(post, n) == u0);
    assert(forall|j: int| 0 <= j < n ==> #[trigger] rows_uuid(post, j) == rows_uuid(mid, j));
    assert forall|u: int| #[trigger] rows_has(post, u) implies rows_has(mid, u) || u == u0 by {
        let j = choose|j: int| 0 <= j < post.len() && #[trigger] rows_uuid(post, j) == u;
        if j < n {
            assert(rows_uuid(mid, j) == u);
        }
    }
    assert forall|u: int| #[trigger] rows_has(mid, u) implies rows_has(post, u) by {
        let j = choose|j: int| 0 <= j < mid.len() && #[trigger] rows_uuid(mid, j) == u;
        assert(rows_uuid(post, j) == u);
    }
    assert(rows_has(post, u0)) by {
        assert(rows_uuid(post, n) == u0);
    }
    assert(any_mapped_to(pm, cobo, asad, d1, u0)) by {
        assert(datum_mapped(pm, cobo, asad, d1[d1.len() - 1]));
    }
    assert(!any_mapped_to(pm, cobo, asad, d0, u0));
    assert(!rows_has(base, u0)) by {
        if rows_has(base, u0) {
            let j = choose|j: int| 0 <= j < base.len() && #[trigger] rows_uuid(base, j) == u0;
            assert(rows_uuid(mid, j) == u0) by {
                assert(mid[j].hw == base[j].hw);
            }
        }
    }
    assert forall|u: int| #[trigger]
        rows_has(post, u) <==> rows_has(base, u) || any_mapped_to(pm, cobo, asad, d1, u) by {
        if rows_has(post, u) {
            if u == u0 {
                assert(any_mapped_to(pm, cobo, asad, d1, u0));
            } else {
                assert(rows_has(mid, u));
                assert(rows_has(base, u) || any_mapped_to(pm, cobo, asad, d0, u));
            }
        }
        if rows_has(base, u) || any_mapped_to(pm, cobo, asad, d1, u) {
            if u == u0 {
                assert(rows_has(post, u0));
            } else if any_mapped_to(pm, cobo, asad, d1, u) && !any_mapped_to(
                pm,
                cobo,
                asad,
                d0,
                u,
            ) {
                assert(u == u0);
            } else {
                assert(rows_has(mid, u));
                assert(rows_has(post, u));
            }
        }
    }
    assert(rows_indexed(post, index_post)) by {
        assert forall|j: int| 0 <= j < post.len() implies (#[trigger] post[j]).samples@.len()
            == 512 by {
            if j < n {
                assert(post[j] == mid[j]);
                assert(mid[j].samples@.len() == 512);
            }
        }
        assert forall|j: int|
            0 <= j < post.len() implies index_post.contains_key(
            (#[trigger] rows_uuid(post, j)) as u64,
        ) && index_post[rows_uuid(post, j) as u64] == j by {
            if j < n {
                assert(rows_uuid(post, j) == rows_uuid(mid, j));
                assert(index_mid.contains_key(rows_uuid(mid, j) as u64));
                assert(rows_uuid(mid, j) != u0) by {
                    if rows_uuid(mid, j) == u0 {
                        assert(rows_has(mid, u0));
                    }
                }
                assert(rows_uuid(mid, j) as u64 != u0 as u64);
                assert(index_post[rows_uuid(mid, j) as u64] == index_mid[rows_uuid(
                    mid,
                    j,
                ) as u64]);
            }
        }
        assert forall|u: u64| #[trigger]
            index_post.contains_key(u) implies index_post[u] < post.len() && rows_uuid(
            post,
            index_post[u] as int,
        ) == u by {
            if u != u0 as u64 {
                assert(index_mid.contains_key(u));
                assert(rows_uuid(mid, index_mid[u] as int) == u);
            }
        }
    }
    assert forall|u: int, tb: int|
        rows_has(post, u) && 0 <= tb < 512 implies rows_trace(post, u)[tb] == match #[trigger]
        last_write(pm, cobo, asad, d1, u, tb) {
        Some(s) => s,
        None => if rows_has(base, u) {
            rows_trace(base, u)[tb]
        } else {
            0i16
        },
    } by {
        let j = rows_index_of(post, u);
        assert(0 <= j < post.len() && rows_uuid(post, j) == u);
        lemma_rows_index_unique(post, index_post, j);
        if u == u0 {
            assert(j == n) by {
                assert(rows_uuid(post, n) == u0);
                lemma_rows_index_unique(post, index_post, n);
            }
            assert(rows_trace(post, u) == post[n].samples@);
            if tb == d.time_bucket_id {
                assert(last_write(pm, cobo, asad, d1, u, tb) == Some(d.sample));
            } else {
                assert(last_write(pm, cobo, asad, d1, u, tb) == last_write(
                    pm,
                    cobo,
                    asad,
                    d0,
                    u,
                    tb,
                ));
                lemma_no_write_without_mapping(pm, cobo, asad, d0, u, tb);
                assert(rows_trace(post, u)[tb] == 0i16);
            }
        } else {
            assert(j != n);
            assert(rows_uuid(mid, j) == u);
            lemma_rows_index_unique(mid, index_mid, j);
            assert(rows_has(mid, u));
            assert(post[j] == mid[j]);
            assert(rows_trace(post, u) == rows_trace(mid, u)) by {
                assert(rows_index_of(mid, u) == j);
            }
            assert(last_write(pm, cobo, asad, d1, u, tb) == last_write(pm, cobo, asad, d0, u, tb));
        }
    }
    assert(rows_consistent(base, pm) ==> rows_consistent(post, pm)) by {
        if rows_consistent(base, pm) {
            assert(rows_consistent(mid, pm));
            assert forall|j: int|
                0 <= j < post.len() implies 0 <= #[trigger] rows_uuid(post, j) <= u64::MAX
                && pm.contains_key(rows_uuid(post, j) as u64) && pm[rows_uuid(post, j) as u64]
                == post[j].hw by {
                if j < n {
                    assert(rows_uuid(post, j) == rows_uuid(mid, j));
                    assert(post[j].hw == mid[j].hw);
                } else {
                    assert(rows_uuid(post, j) == u0);
                }
            }
        }
    }
}

/// A fresh all-zero waveform.
fn vec_of_zeros() -> (v: Vec<i16>)
    ensures
        v@.len() == 512,
        forall|i: int| 0 <= i < 512 ==> v@[i] == 0i16,
{
    let mut v: Vec<i16> = Vec::new();
    let mut i: usize = 0;
    while i < 512
        invariant
            i <= 512,
            v@.len() == i,
            forall|j: int| 0 <= j < i ==> v@[j] == 0i16,
        decreases 512 - i,
    {
        v.push(0);
        i = i + 1;
    }
    v
}

} // verus!
