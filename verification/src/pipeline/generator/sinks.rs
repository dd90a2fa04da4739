//! The sinks a frame generator hands its frames to: registered with ids
//! counting up from 0, removed by id, and each frame handed to the active
//! ones in registration order.

use vstd::prelude::*;
use crate::pipeline::broadcaster::{active_positions, lemma_active_positions};
use crate::pipeline::sink::{SinkId, VideoSink, VideoSinkWants};

verus! {

/// The registered sinks of a generator, with the id the next one gets.
#[verifier::reject_recursive_types(S)]
pub struct SinkRegistry<S> {
    entries: Vec<(SinkId, S, VideoSinkWants)>,
    next_id: u64,
}

impl<S> SinkRegistry<S> {
    /// `(id, wants)` of the registered sinks, in registration order.
    pub closed spec fn entry_list(&self) -> Seq<(SinkId, VideoSinkWants)> {
        self.entries@.map_values(|e: (SinkId, S, VideoSinkWants)| (e.0, e.2))
    }

    /// The id the next registered sink gets.
    pub closed spec fn next_sink_id(&self) -> u64 {
        self.next_id
    }

    /// The wants of the registered sinks, in registration order.
    pub open spec fn wants_list(&self) -> Seq<VideoSinkWants> {
        self.entry_list().map_values(|q: (SinkId, VideoSinkWants)| q.1)
    }

    /// No sinks; the first one gets id 0.
    pub fn new() -> (r: Self)
        ensures
            r.entry_list() == Seq::<(SinkId, VideoSinkWants)>::empty(),
            r.next_sink_id() == 0,
    {
        let r = SinkRegistry { entries: Vec::new(), next_id: 0 };
        assert(r.entry_list() =~= Seq::<(SinkId, VideoSinkWants)>::empty());
        r
    }

    /// Number of registered sinks.
    pub fn count(&self) -> (n: usize)
        ensures
            n == self.entry_list().len(),
    {
        self.entries.len()
    }

    /// Register a sink with its wants; it gets the next id, and ids advance
    /// by one (wrapping).
    pub fn add(&mut self, sink: S, wants: VideoSinkWants) -> (id: SinkId)
        ensures
            id == old(self).next_sink_id(),
            final(self).next_sink_id() == old(self).next_sink_id().wrapping_add(1),
            final(self).entry_list() == old(self).entry_list().push((id, wants)),
    {
        let id = self.next_id;
        let ghost before = self.entries@;
        self.next_id = self.next_id.wrapping_add(1);
        let entry = (id, sink, wants);
        let ghost ev = entry;
        self.entries.push(entry);
        proof {
            let a = self.entries@.map_values(|e: (SinkId, S, VideoSinkWants)| (e.0, e.2));
            let b = before.map_values(|e: (SinkId, S, VideoSinkWants)| (e.0, e.2)).push((id, wants));
            assert(self.entries@ == before.push(ev));
            assert forall|i: int| 0 <= i < a.len() implies a[i] == b[i] by {
                if i < before.len() {
                    assert(self.entries@[i] == before[i]);
                }
            }
            assert(a =~= b);
        }
        id
    }

    /// Remove every sink registered under `id`, keeping the others in order.
    pub fn remove(&mut self, id: SinkId)
        ensures
            final(self).next_sink_id() == old(self).next_sink_id(),
            final(self).entry_list() == old(self).entry_list().filter(|q: (SinkId, VideoSinkWants)| q.0 != id),
    {
        let ghost before = self.entry_list();
        let ghost p = |q: (SinkId, VideoSinkWants)| q.0 != id;
        let mut rest: Vec<(SinkId, S, VideoSinkWants)> = Vec::new();
        std::mem::swap(&mut rest, &mut self.entries);
        let ghost all = rest@;
        assert(self.entries@.map_values(|e: (SinkId, S, VideoSinkWants)| (e.0, e.2)) =~= before.take(0).filter(p)) by {
            reveal_with_fuel(Seq::<_>::filter, 1);
        }
        let mut k: usize = 0;
        let n = rest.len();
        while k < n
            invariant
                0 <= k <= n,
                n == all.len(),
                rest@ == all.subrange(k as int, n as int),
                before == all.map_values(|e: (SinkId, S, VideoSinkWants)| (e.0, e.2)),
                p == (|q: (SinkId, VideoSinkWants)| q.0 != id),
                self.entries@.map_values(|e: (SinkId, S, VideoSinkWants)| (e.0, e.2)) == before.take(k as int).filter(p),
                self.next_id == old(self).next_id,
            decreases n - k,
        {
            let e = rest.remove(0);
            assert(e == all[k as int]);
            proof {
                assert(before.take(k as int + 1) =~= before.take(k as int).push((e.0, e.2)));
                before.take(k as int).lemma_filter_push((e.0, e.2), p);
            }
            if e.0 != id {
                let ghost prev = self.entries@;
                let ghost ev = e;
                self.entries.push(e);
                proof {
                    let a = self.entries@.map_values(|e: (SinkId, S, VideoSinkWants)| (e.0, e.2));
                    let b = prev.map_values(|e: (SinkId, S, VideoSinkWants)| (e.0, e.2)).push((ev.0, ev.2));
                    assert(self.entries@ == prev.push(ev));
                    assert forall|i: int| 0 <= i < a.len() implies a[i] == b[i] by {
                        if i < prev.len() {
                            assert(self.entries@[i] == prev[i]);
                        }
                    }
                    assert(a =~= b);
                }
            }
            assert(rest@ =~= all.subrange(k as int + 1, n as int));
            k = k + 1;
        }
        assert(before.take(n as int) =~= before);
    }

    /// The sinks a frame is handed to: the positions of the active sinks,
    /// in registration order.
    pub fn delivery_targets(&self) -> (t: Vec<usize>)
        ensures
            t@ == active_positions(self.wants_list(), self.wants_list().len()),
    {
        let ghost ws = self.wants_list();
        let mut t: Vec<usize> = Vec::new();
        let mut i: usize = 0;
        while i < self.entries.len()
            invariant
                i <= self.entries@.len(),
                ws == self.wants_list(),
                ws.len() == self.entries@.len(),
                t@ == active_positions(ws, i as nat),
            decreases self.entries@.len() - i,
        {
            assert(ws[i as int] == self.entries@[i as int].2);
            if self.entries[i].2.is_active {
                t.push(i);
            }
            i = i + 1;
        }
        t
    }

    /// Hand a frame to every active sink, in registration order; a sink
    /// that fails does not stop the others.
    pub fn deliver<F>(&self, frame: &F) where S: VideoSink<F> {
        let targets = self.delivery_targets();
        let count = self.entries.len();
        proof {
            assert(self.wants_list().len() == self.entries@.len());
            lemma_active_positions(self.wants_list(), self.wants_list().len());
        }
        let mut k: usize = 0;
        while k < targets.len()
            invariant
                k <= targets@.len(),
                self.wants_list().len() == self.entries@.len(),
                forall|j: int|
                    0 <= j < targets@.len() ==> #[trigger] targets@[j] < self.wants_list().len()
                        && self.wants_list()[targets@[j] as int].is_active,
            decreases targets@.len() - k,
        {
            let i = targets[k];
            assert(targets@[k as int] < self.wants_list().len());
            let _ = self.entries[i].1.on_frame(frame);
            k = k + 1;
        }
    }
}

} // verus!
