//! The k-way merge of per-board frame streams by event id.
//!
//! Every source stream hands out its frames in non-decreasing event-id
//! order.  Each step peeks every live stream, consumes one frame from the
//! stream whose next event id is smallest — ties going to the earliest
//! stream — and drops streams that have ended.  The merged stream is then
//! itself non-decreasing in event id.

use vstd::prelude::*;

use crate::error::MergerError;
use crate::graw_frame::{FrameMetadata, GrawFrame};

verus! {

broadcast use vstd::std_specs::vec::axiom_spec_len;

/// Frames are in non-decreasing event-id order.
pub open spec fn frames_sorted(fs: Seq<GrawFrame>) -> bool {
    forall|i: int, j: int|
        0 <= i <= j < fs.len() ==> (#[trigger] fs[i]).header.event_id
            <= (#[trigger] fs[j]).header.event_id
}

/// Event ids are non-decreasing.
pub open spec fn non_decreasing(s: Seq<u32>) -> bool {
    forall|i: int, j: int| 0 <= i <= j < s.len() ==> s[i] <= s[j]
}

/// One source stream of the merge: frames waiting in event-id order.
#[derive(Debug)]
pub struct FrameQueue {
    /// Remaining frames, the next one first.
    pub frames: Vec<GrawFrame>,
}

impl FrameQueue {
    /// The queue hands frames out in non-decreasing event-id order.
    pub open spec fn sorted(self) -> bool {
        frames_sorted(self.frames@)
    }

    /// The queue still has a frame to give.
    pub open spec fn live(self) -> bool {
        self.frames@.len() > 0
    }

    /// A queue over the given frames.
    pub fn new(frames: Vec<GrawFrame>) -> (q: FrameQueue)
        ensures
            q.frames@ == frames@,
    {
        FrameQueue { frames }
    }

    /// The identity of the next frame without consuming it, or `None` at
    /// the end of the queue.
    pub fn peek_next(&self) -> (r: Option<FrameMetadata>)
        ensures
            match r {
                Some(m) => self.frames@.len() > 0 && m.event_id
                    == self.frames@[0].header.event_id && m.event_time
                    == self.frames@[0].header.event_time,
                None => self.frames@.len() == 0,
            },
    {
        if self.frames.len() == 0 {
            None
        } else {
            Some(self.frames[0].header.metadata())
        }
    }

    /// Hand out the next frame.
    pub fn consume_next(&mut self) -> (frame: GrawFrame)
        requires
            old(self).frames@.len() > 0,
        ensures
            frame == old(self).frames@[0],
            final(self).frames@ == old(self).frames@.drop_first(),
    {
        let frame = self.frames.remove(0);
        proof {
            assert(self.frames@ =~= old(self).frames@.drop_first());
        }
        frame
    }
}

/// Among the peeked stream identities, `sel` names the stream the merge
/// policy picks: a live stream whose event id none beats, and the earliest
/// of those that tie.
pub open spec fn valid_selection(peeks: Seq<Option<FrameMetadata>>, sel: int) -> bool {
    &&& 0 <= sel < peeks.len()
    &&& peeks[sel] is Some
    &&& forall|j: int|
        0 <= j < peeks.len() && (#[trigger] peeks[j]) is Some ==> peeks[sel]->Some_0.event_id
            <= peeks[j]->Some_0.event_id
    &&& forall|j: int|
        0 <= j < sel && (#[trigger] peeks[j]) is Some ==> peeks[j]->Some_0.event_id
            > peeks[sel]->Some_0.event_id
}

/// Pick the stream with the smallest peeked event id, ties to the earliest
/// stream; `None` when no stream had anything to peek.
pub fn select_earliest(peeks: &Vec<Option<FrameMetadata>>) -> (r: Option<usize>)
    ensures
        match r {
            Some(sel) => valid_selection(peeks@, sel as int),
            None => forall|j: int| 0 <= j < peeks@.len() ==> (#[trigger] peeks@[j]) is None,
        },
{
    let n = peeks.len();
    let mut best: Option<usize> = None;
    let mut s: usize = 0;
    while s < n
        invariant
            n == peeks@.len(),
            s <= n,
            match best {
                Some(b) => b < s && peeks@[b as int] is Some && (forall|j: int|
                    0 <= j < s && (#[trigger] peeks@[j]) is Some ==> peeks@[b as int]->Some_0.event_id
                        <= peeks@[j]->Some_0.event_id) && (forall|j: int|
                    0 <= j < b && (#[trigger] peeks@[j]) is Some ==> peeks@[j]->Some_0.event_id
                        > peeks@[b as int]->Some_0.event_id),
                None => forall|j: int| 0 <= j < s ==> (#[trigger] peeks@[j]) is None,
            },
        decreases n - s,
    {
        match &peeks[s] {
            Some(meta) => {
                match best {
                    None => {
                        best = Some(s);
                    },
                    Some(b) => {
                        let best_meta = match &peeks[b] {
                            Some(m) => m,
                            None => {
                                proof {
                                    assert(false);
                                }
                                meta
                            },
                        };
                        if meta.event_id < best_meta.event_id {
                            best = Some(s);
                        }
                    },
                }
            },
            None => {},
        }
        s = s + 1;
    }
    best
}

/// The streams that still have frames to give.
pub open spec fn drop_ended(stacks: Seq<FrameQueue>) -> Seq<FrameQueue> {
    stacks.filter(|q: FrameQueue| q.live())
}

/// The frame sequences of the streams.
pub open spec fn stack_views(stacks: Seq<FrameQueue>) -> Seq<Seq<GrawFrame>> {
    Seq::new(stacks.len(), |i: int| stacks[i].frames@)
}

/// The frame sequences that still hold a frame.
pub open spec fn live_views(views: Seq<Seq<GrawFrame>>) -> Seq<Seq<GrawFrame>> {
    views.filter(|f: Seq<GrawFrame>| f.len() > 0)
}

/// The peeked identity of each stream.
pub open spec fn spec_peeks(stacks: Seq<FrameQueue>) -> Seq<Option<FrameMetadata>> {
    Seq::new(
        stacks.len(),
        |i: int|
            if stacks[i].frames.len() > 0 {
                Some(
                    FrameMetadata {
                        event_id: stacks[i].frames[0].header.event_id,
                        event_time: stacks[i].frames[0].header.event_time,
                    },
                )
            } else {
                None
            },
    )
}

/// The merge of the per-board streams, with the event ids it has emitted.
pub struct Merger {
    /// The live and ended source streams.
    pub file_stacks: Vec<FrameQueue>,
    /// The event ids emitted so far, in order.
    pub emitted: Ghost<Seq<u32>>,
}

impl Merger {
    /// Every stream is sorted, the emitted ids are non-decreasing, and no
    /// waiting frame's id is below the last emitted id.
    pub open spec fn wf(self) -> bool {
        &&& forall|s: int|
            0 <= s < self.file_stacks@.len() ==> (#[trigger] self.file_stacks@[s]).sorted()
        &&& non_decreasing(self.emitted@)
        &&& self.emitted@.len() > 0 ==> forall|s: int, i: int|
            0 <= s < self.file_stacks@.len() && 0 <= i < self.file_stacks@[s].frames@.len()
                ==> (#[trigger] self.file_stacks@[s].frames@[i]).header.event_id
                >= self.emitted@.last()
    }

    /// A merger over the given streams; at least one stream is required.
    pub fn new(stacks: Vec<FrameQueue>) -> (r: Result<Merger, MergerError>)
        requires
            forall|s: int| 0 <= s < stacks@.len() ==> (#[trigger] stacks@[s]).sorted(),
        ensures
            stacks@.len() == 0 ==> (r matches Err(e) && e is NoFilesError),
            stacks@.len() > 0 ==> (r matches Ok(m) && m.file_stacks@ == stacks@ && m.emitted@
                =~= Seq::<u32>::empty() && m.wf()),
    {
        if stacks.len() == 0 {
            return Err(MergerError::NoFilesError);
        }
        Ok(Merger { file_stacks: stacks, emitted: Ghost(Seq::empty()) })
    }

    /// Emit one frame: the head of the earliest stream whose next event id
    /// is smallest, dropping streams that have ended; `None` once every
    /// stream has ended.  The emitted event ids never decrease.
    pub fn get_next_frame(&mut self) -> (r: Option<GrawFrame>)
        requires
            old(self).wf(),
        ensures
            final(self).wf(),
            non_decreasing(final(self).emitted@),
            r is None ==> *final(self) == *old(self) && (forall|s: int|
                0 <= s < old(self).file_stacks@.len() ==> !(#[trigger] old(
                    self,
                ).file_stacks@[s]).live()),
            r matches Some(frame) ==> ({
                let stacks0 = old(self).file_stacks@;
                let sel = choose|sel: int| valid_selection(spec_peeks(stacks0), sel);
                &&& valid_selection(spec_peeks(stacks0), sel)
                &&& frame == stacks0[sel].frames@[0]
                &&& final(self).emitted@ == old(self).emitted@.push(frame.header.event_id)
                &&& (old(self).emitted@.len() > 0 ==> frame.header.event_id >= old(
                    self,
                ).emitted@.last())
                &&& stack_views(final(self).file_stacks@) == live_views(
                    stack_views(stacks0).update(sel, stacks0[sel].frames@.drop_first()),
                )
            }),
    {
        let n = self.file_stacks.len();
        let mut peeks: Vec<Option<FrameMetadata>> = Vec::new();
        let mut s: usize = 0;
        while s < n
            invariant
                n == self.file_stacks@.len(),
                s <= n,
                peeks@.len() == s,
                forall|j: int| 0 <= j < s ==> peeks@[j] == spec_peeks(self.file_stacks@)[j],
            decreases n - s,
        {
            let q = &self.file_stacks[s];
            peeks.push(q.peek_next());
            proof {
                assert(peeks@[s as int] == spec_peeks(self.file_stacks@)[s as int]);
            }
            s = s + 1;
        }
        proof {
            assert(peeks@ =~= spec_peeks(self.file_stacks@));
        }
        match select_earliest(&peeks) {
            None => {
                proof {
                    assert forall|j: int| 0 <= j < self.file_stacks@.len() implies !(#[trigger] self
                        .file_stacks@[j]).live() by {
                        assert(spec_peeks(self.file_stacks@)[j] is None);
                    }
                }
                None
            },
            Some(sel) => {
                let ghost stacks0 = self.file_stacks@;
                let mut q = self.file_stacks.remove(sel);
                let frame = q.consume_next();
                let ghost qv = q;
                self.file_stacks.insert(sel, q);
                proof {
                    assert(self.file_stacks@ =~= stacks0.update(sel as int, qv));
                }
                let ghost consumed = self.file_stacks@;
                let ghost m0 = frame.header.event_id;
                proof {
                    self.emitted@ = self.emitted@.push(m0);
                }
                proof {
                    assert(consumed.take(0) =~= Seq::<FrameQueue>::empty());
                    assert(consumed.skip(0) =~= consumed);
                    assert(drop_ended(consumed) =~= consumed.take(0) + drop_ended(
                        consumed.skip(0),
                    ));
                }
                let mut j: usize = 0;
                while j < self.file_stacks.len()
                    invariant
                        self.emitted@ == old(self).emitted@.push(m0),
                        j <= self.file_stacks@.len(),
                        forall|i: int| 0 <= i < j ==> (#[trigger] self.file_stacks@[i]).live(),
                        self.file_stacks@.take(j as int) + self.file_stacks@.skip(j as int)
                            =~= self.file_stacks@,
                        drop_ended(consumed) =~= self.file_stacks@.take(j as int) + drop_ended(
                            self.file_stacks@.skip(j as int),
                        ),
                    decreases self.file_stacks@.len() - j,
                {
                    let ghost before = self.file_stacks@;
                    if self.file_stacks[j].frames.len() == 0 {
                        self.file_stacks.remove(j);
                        proof {
                            lemma_filter_skip_step(before, j as int, false);
                            assert(self.file_stacks@ =~= before.remove(j as int));
                            assert(self.file_stacks@.take(j as int) =~= before.take(j as int));
                            assert(self.file_stacks@.skip(j as int) =~= before.skip(j + 1));
                        }
                    } else {
                        proof {
                            lemma_filter_skip_step(before, j as int, true);
                            assert(self.file_stacks@.take(j + 1) =~= before.take(j as int).push(
                                before[j as int],
                            ));
                        }
                        j = j + 1;
                    }
                }
                proof {
                    assert(self.file_stacks@.skip(j as int) =~= Seq::<FrameQueue>::empty());
                    assert(drop_ended(self.file_stacks@.skip(j as int)) =~= Seq::<
                        FrameQueue,
                    >::empty());
                    assert(self.file_stacks@.take(j as int) =~= self.file_stacks@);
                    assert(self.file_stacks@ =~= drop_ended(consumed));
                    lemma_merge_step_wf(stacks0, consumed, old(self).emitted@, m0, sel as int);
                    let chosen = choose|c: int| valid_selection(spec_peeks(stacks0), c);
                    lemma_selection_unique(spec_peeks(stacks0), chosen, sel as int);
                    lemma_views_filter(consumed);
                    assert(stack_views(consumed) =~= stack_views(stacks0).update(
                        sel as int,
                        stacks0[sel as int].frames@.drop_first(),
                    ));
                }
                Some(frame)
            },
        }
    }
}

/// One step of dropping ended streams: splitting the suffix at its head
/// splits its filtered image the same way.
proof fn lemma_filter_skip_step(s: Seq<FrameQueue>, j: int, keep: bool)
    requires
        0 <= j < s.len(),
        keep <==> s[j].live(),
    ensures
        drop_ended(s.skip(j)) == if keep {
            seq![s[j]] + drop_ended(s.skip(j + 1))
        } else {
            drop_ended(s.skip(j + 1))
        },
{
    let suffix = s.skip(j);
    assert(suffix.len() > 0);
    assert(suffix[0] == s[j]);
    assert(suffix.drop_first() =~= s.skip(j + 1));
    lemma_filter_first(suffix, |q: FrameQueue| q.live());
}

/// Filtering splits at the first element.
proof fn lemma_filter_first<A>(s: Seq<A>, pred: spec_fn(A) -> bool)
    requires
        s.len() > 0,
    ensures
        s.filter(pred) == if pred(s[0]) {
            seq![s[0]] + s.drop_first().filter(pred)
        } else {
            s.drop_first().filter(pred)
        },
    decreases s.len(),
{
    reveal(Seq::filter);
    if s.len() == 1 {
        assert(s.drop_first() =~= Seq::<A>::empty());
        assert(s.drop_last() =~= Seq::<A>::empty());
        assert(s.last() == s[0]);
    } else {
        lemma_filter_first(s.drop_last(), pred);
        assert(s.drop_last().len() > 0);
        assert(s.drop_last()[0] == s[0]);
        assert(s.drop_last().drop_first() =~= s.drop_first().drop_last());
        assert(s.drop_first().len() > 0);
        assert(s.drop_first().last() == s.last());
        if pred(s.last()) {
            if pred(s[0]) {
                assert(seq![s[0]] + s.drop_first().drop_last().filter(pred) + seq![s.last()]
                    =~= seq![s[0]] + (s.drop_first().drop_last().filter(pred) + seq![s.last()]));
            }
        }
    }
}

/// The merge policy names one stream: two valid selections agree.
proof fn lemma_selection_unique(peeks: Seq<Option<FrameMetadata>>, a: int, b: int)
    requires
        valid_selection(peeks, a),
        valid_selection(peeks, b),
    ensures
        a == b,
{
    if a < b {
        assert(peeks[a]->Some_0.event_id > peeks[b]->Some_0.event_id);
        assert(peeks[b]->Some_0.event_id >= peeks[a]->Some_0.event_id);
    }
    if b < a {
        assert(peeks[b]->Some_0.event_id > peeks[a]->Some_0.event_id);
        assert(peeks[a]->Some_0.event_id >= peeks[b]->Some_0.event_id);
    }
}

/// Dropping ended streams and then taking views is taking views and then
/// dropping empty sequences.
proof fn lemma_views_filter(s: Seq<FrameQueue>)
    ensures
        stack_views(drop_ended(s)) == live_views(stack_views(s)),
    decreases s.len(),
{
    reveal(Seq::filter);
    if s.len() == 0 {
        assert(stack_views(drop_ended(s)) =~= live_views(stack_views(s)));
    } else {
        lemma_views_filter(s.drop_last());
        assert(stack_views(s).drop_last() =~= stack_views(s.drop_last()));
        assert(stack_views(s).last() == s.last().frames@);
        if s.last().live() {
            assert(stack_views(drop_ended(s.drop_last()).push(s.last())) =~= stack_views(
                drop_ended(s.drop_last()),
            ).push(s.last().frames@));
            assert(stack_views(drop_ended(s)) =~= live_views(stack_views(s)));
        } else {
            assert(stack_views(drop_ended(s)) =~= live_views(stack_views(s)));
        }
    }
}

/// After consuming the selected minimum head, the merge invariant holds
/// again: the remaining frames all sit at or above the id just emitted.
proof fn lemma_merge_step_wf(
    stacks0: Seq<FrameQueue>,
    consumed: Seq<FrameQueue>,
    emitted0: Seq<u32>,
    m0: u32,
    sel: int,
)
    requires
        forall|s: int| 0 <= s < stacks0.len() ==> (#[trigger] stacks0[s]).sorted(),
        non_decreasing(emitted0),
        emitted0.len() > 0 ==> forall|s: int, i: int|
            0 <= s < stacks0.len() && 0 <= i < stacks0[s].frames@.len() ==> (#[trigger] stacks0[s].frames@[i]).header.event_id >= emitted0.last(),
        valid_selection(spec_peeks(stacks0), sel),
        m0 == stacks0[sel].frames@[0].header.event_id,
        consumed.len() == stacks0.len(),
        forall|s: int| 0 <= s < stacks0.len() && s != sel ==> consumed[s] == stacks0[s],
        consumed[sel].frames@ == stacks0[sel].frames@.drop_first(),
    ensures
        non_decreasing(emitted0.push(m0)),
        forall|s: int|
            0 <= s < drop_ended(consumed).len() ==> (#[trigger] drop_ended(consumed)[s]).sorted(),
        forall|s: int, i: int|
            0 <= s < drop_ended(consumed).len() && 0 <= i < drop_ended(consumed)[s].frames@.len()
                ==> (#[trigger] drop_ended(consumed)[s].frames@[i]).header.event_id >= m0,
{
    let live = |q: FrameQueue| q.live();
    assert(emitted0.len() > 0 ==> m0 >= emitted0.last()) by {
        if emitted0.len() > 0 {
            assert(stacks0[sel].frames@[0].header.event_id >= emitted0.last());
        }
    }
    assert(non_decreasing(emitted0.push(m0))) by {
        assert forall|i: int, j: int|
            0 <= i <= j < emitted0.push(m0).len() implies emitted0.push(m0)[i] <= emitted0.push(
            m0,
        )[j] by {
            if j < emitted0.len() {
            } else if i < emitted0.len() {
                assert(emitted0[i] <= emitted0.last());
            }
        }
    }
    assert forall|s: int| 0 <= s < consumed.len() implies (#[trigger] consumed[s]).sorted()
        && (forall|i: int|
        0 <= i < consumed[s].frames@.len() ==> (#[trigger] consumed[s].frames@[i]).header.event_id
            >= m0) by {
        if s == sel {
            assert forall|i: int, j: int|
                0 <= i <= j < consumed[sel].frames@.len() implies (#[trigger] consumed[sel].frames@[i]).header.event_id
                <= (#[trigger] consumed[sel].frames@[j]).header.event_id by {
                assert(consumed[sel].frames@[i] == stacks0[sel].frames@[i + 1]);
                assert(consumed[sel].frames@[j] == stacks0[sel].frames@[j + 1]);
            }
            assert forall|i: int|
                0 <= i < consumed[sel].frames@.len() implies (#[trigger] consumed[sel].frames@[i]).header.event_id
                >= m0 by {
                assert(consumed[sel].frames@[i] == stacks0[sel].frames@[i + 1]);
                assert(stacks0[sel].frames@[0].header.event_id
                    <= stacks0[sel].frames@[i + 1].header.event_id);
            }
        } else {
            assert(consumed[s] == stacks0[s]);
            assert forall|i: int|
                0 <= i < consumed[s].frames@.len() implies (#[trigger] consumed[s].frames@[i]).header.event_id
                >= m0 by {
                assert(stacks0[s].frames@.len() > 0);
                assert(spec_peeks(stacks0)[s] is Some);
                assert(spec_peeks(stacks0)[s]->Some_0.event_id >= m0) by {
                    assert(spec_peeks(stacks0)[sel]->Some_0.event_id == m0);
                }
                assert(stacks0[s].frames@[0].header.event_id >= m0);
                assert(stacks0[s].frames@[0].header.event_id
                    <= stacks0[s].frames@[i].header.event_id);
            }
        }
    }
    assert forall|s: int|
        0 <= s < drop_ended(consumed).len() implies (#[trigger] drop_ended(consumed)[s]).sorted()
        && (forall|i: int|
        0 <= i < drop_ended(consumed)[s].frames@.len() ==> (#[trigger] drop_ended(
            consumed,
        )[s].frames@[i]).header.event_id >= m0) by {
        lemma_filter_element_of(consumed, s);
        let k = choose|k: int| 0 <= k < consumed.len() && consumed[k] == drop_ended(consumed)[s];
        assert(consumed[k].sorted());
        assert(forall|i: int|
            0 <= i < consumed[k].frames@.len() ==> (#[trigger] consumed[k].frames@[i]).header.event_id
                >= m0);
    }
}

/// Every stream kept by the drop stands somewhere in the row of
/// streams it was filtered from.
proof fn lemma_filter_element_of(s: Seq<FrameQueue>, i: int)
    requires
        0 <= i < drop_ended(s).len(),
    ensures
        exists|k: int| 0 <= k < s.len() && s[k] == drop_ended(s)[i],
    decreases s.len(),
{
    reveal(Seq::filter);
    if s.len() > 0 {
        if s.last().live() {
            if i < drop_ended(s).len() - 1 {
                lemma_filter_element_of(s.drop_last(), i);
                let k = choose|k: int|
                    0 <= k < s.drop_last().len() && s.drop_last()[k] == drop_ended(
                        s.drop_last(),
                    )[i];
                assert(s[k] == drop_ended(s)[i]);
            } else {
                assert(s[s.len() - 1] == drop_ended(s)[i]);
            }
        } else {
            lemma_filter_element_of(s.drop_last(), i);
            let k = choose|k: int|
                0 <= k < s.drop_last().len() && s.drop_last()[k] == drop_ended(s.drop_last())[i];
            assert(s[k] == drop_ended(s)[i]);
        }
    }
}

} // verus!
