//! Grouping of consecutive same-id frames into events.
//!
//! The builder stashes frames while their event id matches the id under
//! assembly.  A frame with a greater id closes the stash into an event and
//! opens a new one; a smaller id is an ordering fault, since the merger
//! emits ids in non-decreasing order.

use vstd::prelude::*;

use crate::error::{EventBuilderError, EventError};
use crate::event::{
    all_frames_data_valid, frames_any_mapped, frames_last_write, frames_same_id,
    spec_last_ts_main, spec_last_ts_other, Event,
};
use crate::graw_frame::{frame_data_valid, GrawFrame};
use crate::pad_map::{keys_consistent, PadMap};

verus! {

/// Builds one event at a time out of the merged frame stream.
#[derive(Debug)]
pub struct EventBuilder {
    /// Event id under assembly; `None` until the first frame arrives.
    pub current_event_id: Option<u32>,
    /// Map handed to each assembled event.
    pub pad_map: PadMap,
    /// Frames of the event under assembly.
    pub frame_stack: Vec<GrawFrame>,
}

impl EventBuilder {
    /// The stash and the id agree: an id is set exactly when frames are
    /// stashed, every stashed frame carries it, the samples are in range,
    /// and the pad map files addresses under their own coordinates.
    pub open spec fn wf(self) -> bool {
        &&& keys_consistent(self.pad_map@)
        &&& all_frames_data_valid(self.frame_stack@)
        &&& self.frame_stack@.len() <= i32::MAX
        &&& match self.current_event_id {
            None => self.frame_stack@.len() == 0,
            Some(id) => self.frame_stack@.len() > 0 && forall|i: int|
                0 <= i < self.frame_stack@.len() ==> (#[trigger] self.frame_stack@[i]).header.event_id == id,
        }
    }

    /// A fresh builder around the given pad map.
    pub fn new(pad_map: PadMap) -> (b: EventBuilder)
        requires
            keys_consistent(pad_map@),
        ensures
            b.wf(),
            b.current_event_id is None,
            b.frame_stack@.len() == 0,
            b.pad_map@ == pad_map@,
    {
        EventBuilder { current_event_id: None, pad_map, frame_stack: Vec::new() }
    }

    /// Feed one frame.  The first frame opens the first event.  A frame
    /// with the current id joins the stash.  A greater id closes the stash
    /// into an event, returned, and opens a new stash on the frame.  A
    /// smaller id is refused as out of order.
    pub fn append_frame(&mut self, frame: GrawFrame) -> (r: Result<
        Option<Event>,
        EventBuilderError,
    >)
        requires
            old(self).wf(),
            frame_data_valid(frame.data@),
            old(self).frame_stack@.len() < i32::MAX,
        ensures
            final(self).wf(),
            final(self).pad_map@ == old(self).pad_map@,
            old(self).current_event_id is None ==> r == Ok::<Option<Event>, EventBuilderError>(
                None,
            ) && final(self).current_event_id == Some(frame.header.event_id)
                && final(self).frame_stack@ == old(self).frame_stack@.push(frame),
            old(self).current_event_id matches Some(cur) ==> {
                &&& (frame.header.event_id == cur ==> r == Ok::<Option<Event>, EventBuilderError>(
                    None,
                ) && final(self).current_event_id == Some(cur)
                    && final(self).frame_stack@ == old(self).frame_stack@.push(frame))
                &&& (frame.header.event_id < cur ==> r == Err::<Option<Event>, EventBuilderError>(
                    EventBuilderError::EventOutOfOrder(frame.header.event_id, cur),
                ) && *final(self) == *old(self))
                &&& (frame.header.event_id > cur ==> (r matches Ok(Some(event)) && {
                    let pm = old(self).pad_map@;
                    let stash = old(self).frame_stack@;
                    &&& event.wf()
                    &&& event.consistent_with(pm)
                    &&& event.event_id == cur
                    &&& event.nframes == stash.len()
                    &&& event.timestampother == spec_last_ts_other(stash)
                    &&& event.timestamp == spec_last_ts_main(stash)
                    &&& (forall|u: int| #[trigger]
                        event.has_uuid(u) <==> frames_any_mapped(pm, stash, u))
                    &&& (forall|u: int, tb: int|
                        event.has_uuid(u) && 0 <= tb < 512 ==> event.trace_of(u)[tb]
                            == match #[trigger] frames_last_write(pm, stash, u, tb) {
                            Some(s) => s,
                            None => 0i16,
                        })
                    &&& final(self).current_event_id == Some(frame.header.event_id)
                    &&& final(self).frame_stack@ =~= seq![frame]
                }))
            },
    {
        match self.current_event_id {
            None => {
                self.current_event_id = Some(frame.header.event_id);
                self.frame_stack.push(frame);
                Ok(None)
            },
            Some(cur) => {
                if frame.header.event_id > cur {
                    let event = match Event::new(&self.pad_map, &self.frame_stack) {
                        Ok(ev) => ev,
                        Err(_) => {
                            proof {
                                assert(frames_same_id(self.frame_stack@));
                                assert(false);
                            }
                            return Err(
                                EventBuilderError::EventError(
                                    EventError::MismatchedEventID(frame.header.event_id, cur),
                                ),
                            );
                        },
                    };
                    self.frame_stack.clear();
                    self.current_event_id = Some(frame.header.event_id);
                    self.frame_stack.push(frame);
                    Ok(Some(event))
                } else if frame.header.event_id < cur {
                    Err(EventBuilderError::EventOutOfOrder(frame.header.event_id, cur))
                } else {
                    self.frame_stack.push(frame);
                    Ok(None)
                }
            },
        }
    }

    /// Close the remaining stash into a final event, or `None` when no
    /// frame is left over.  The stash is consumed either way: frames do not
    /// outlive the assembly of their event, and the builder is back in its
    /// initial state.
    pub fn flush_final_event(&mut self) -> (r: Option<Event>)
        requires
            old(self).wf(),
        ensures
            final(self).wf(),
            final(self).pad_map@ == old(self).pad_map@,
            final(self).frame_stack@.len() == 0,
            final(self).current_event_id is None,
            old(self).frame_stack@.len() == 0 ==> r is None,
            old(self).frame_stack@.len() > 0 ==> (r matches Some(event) && {
                let pm = old(self).pad_map@;
                let stash = old(self).frame_stack@;
                &&& event.wf()
                &&& event.consistent_with(pm)
                &&& event.event_id == old(self).current_event_id->Some_0
                &&& event.nframes == stash.len()
                &&& event.timestampother == spec_last_ts_other(stash)
                &&& event.timestamp == spec_last_ts_main(stash)
                &&& (forall|u: int| #[trigger]
                    event.has_uuid(u) <==> frames_any_mapped(pm, stash, u))
                &&& (forall|u: int, tb: int|
                    event.has_uuid(u) && 0 <= tb < 512 ==> event.trace_of(u)[tb] == match #[trigger]
                    frames_last_write(pm, stash, u, tb) {
                        Some(s) => s,
                        None => 0i16,
                    })
            }),
    {
        if self.frame_stack.len() != 0 {
            proof {
                assert(frames_same_id(self.frame_stack@));
            }
            let event = match Event::new(&self.pad_map, &self.frame_stack) {
                Ok(event) => Some(event),
                Err(_) => {
                    proof {
                        assert(false);
                    }
                    None
                },
            };
            self.frame_stack.clear();
            self.current_event_id = None;
            event
        } else {
            self.current_event_id = None;
            None
        }
    }
}

} // verus!
