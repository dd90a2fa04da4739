use vstd::prelude::*;

use std::sync::Arc;

use crate::error::MediaError;
use crate::pipeline::sink::{default_wants, SinkId, VideoSink, VideoSinkWants};
use crate::pipeline::source::VideoSource;

verus! {

// ── gcd / lcm ────────────────────────────────────────────

/// Greatest common divisor by Euclid's algorithm.
pub open spec fn gcd_spec(a: nat, b: nat) -> nat
    decreases b,
{
    if b == 0 {
        a
    } else {
        gcd_spec(b, a % b)
    }
}

/// Least common multiple as `alignment` aggregation computes it: the larger
/// argument when one is zero, else `a / gcd(a, b) · b`, kept to 32 bits.
pub open spec fn lcm_spec(a: u32, b: u32) -> u32 {
    if a == 0 || b == 0 {
        if a >= b {
            a
        } else {
            b
        }
    } else {
        (((a as int / gcd_spec(a as nat, b as nat) as int) * b) % 0x1_0000_0000) as u32
    }
}

proof fn lemma_gcd_bound(a: nat, b: nat)
    ensures
        gcd_spec(a, b) <= if a >= b { a } else { b },
        (a > 0 || b > 0) ==> gcd_spec(a, b) > 0,
    decreases b,
{
    if b > 0 {
        vstd::arithmetic::div_mod::lemma_mod_pos_bound(a as int, b as int);
        lemma_gcd_bound(b, a % b);
    }
}

fn gcd(a0: u32, b0: u32) -> (g: u32)
    ensures
        g == gcd_spec(a0 as nat, b0 as nat),
{
    let mut a = a0;
    let mut b = b0;
    while b != 0
        invariant
            gcd_spec(a as nat, b as nat) == gcd_spec(a0 as nat, b0 as nat),
        decreases b,
    {
        proof {
            vstd::arithmetic::div_mod::lemma_mod_pos_bound(a as int, b as int);
        }
        let t = b;
        b = a % b;
        a = t;
    }
    a
}

fn lcm(a: u32, b: u32) -> (l: u32)
    ensures
        l == lcm_spec(a, b),
{
    if a == 0 || b == 0 {
        return if a >= b {
            a
        } else {
            b
        };
    }
    let g = gcd(a, b);
    proof {
        lemma_gcd_bound(a as nat, b as nat);
    }
    (a / g).wrapping_mul(b)
}

/// `d` divides `x`.
pub open spec fn divides(d: int, x: int) -> bool {
    exists|k: int| #[trigger] (d * k) == x
}

proof fn lemma_divides_mod(d: int, x: int)
    requires
        d > 0,
        x % d == 0,
    ensures
        divides(d, x),
{
    vstd::arithmetic::div_mod::lemma_fundamental_div_mod(x, d);
    assert(d * (x / d) == x);
}

proof fn lemma_divides_lin(d: int, x: int, y: int, k: int)
    requires
        divides(d, x),
        divides(d, y),
    ensures
        divides(d, k * x + y),
{
    let p = choose|p: int| #[trigger] (d * p) == x;
    let q = choose|q: int| #[trigger] (d * q) == y;
    assert(d * (k * p + q) == k * x + y) by (nonlinear_arith)
        requires
            d * p == x,
            d * q == y,
    ;
}

/// The gcd divides both arguments.
pub proof fn law_gcd_divides(a: nat, b: nat)
    requires
        a > 0 || b > 0,
    ensures
        divides(gcd_spec(a, b) as int, a as int),
        divides(gcd_spec(a, b) as int, b as int),
    decreases b,
{
    if b == 0 {
        assert(a * 1 == a);
        assert(a * 0 == 0);
    } else {
        vstd::arithmetic::div_mod::lemma_mod_pos_bound(a as int, b as int);
        law_gcd_divides(b, a % b);
        let g = gcd_spec(a, b) as int;
        let ai = a as int;
        let bi = b as int;
        vstd::arithmetic::div_mod::lemma_fundamental_div_mod(ai, bi);
        assert(ai % bi == (a % b) as int);
        assert(ai / bi == (a / b) as int);
        lemma_divides_lin(g, bi, ai % bi, ai / bi);
        vstd::arithmetic::mul::lemma_mul_is_commutative(bi, ai / bi);
        assert((ai / bi) * bi + ai % bi == ai);
    }
}

/// When `a / gcd(a, b) · b` fits in 32 bits, the lcm is a common multiple of
/// `a` and `b`; with a zero argument it is the other argument.
pub proof fn law_lcm_common_multiple(a: u32, b: u32)
    requires
        a > 0 && b > 0 ==> (a as int / gcd_spec(a as nat, b as nat) as int) * b <= u32::MAX,
    ensures
        a > 0 && b > 0 ==> divides(a as int, lcm_spec(a, b) as int) && divides(b as int, lcm_spec(a, b) as int),
        a == 0 ==> lcm_spec(a, b) == b,
        b == 0 ==> lcm_spec(a, b) == a,
{
    if a > 0 && b > 0 {
        let g = gcd_spec(a as nat, b as nat) as int;
        lemma_gcd_bound(a as nat, b as nat);
        law_gcd_divides(a as nat, b as nat);
        let p = choose|p: int| #[trigger] (g * p) == a as int;
        let q = choose|q: int| #[trigger] (g * q) == b as int;
        let l = (a as int / gcd_spec(a as nat, b as nat) as int) * b;
        vstd::arithmetic::div_mod::lemma_div_multiples_vanish(p, g);
        assert(a as int / g == p);
        assert(l == p * b);
        assert(p * b == a * q) by (nonlinear_arith)
            requires
                g * p == a,
                g * q == b,
        ;
        vstd::arithmetic::div_mod::lemma_small_mod(l as nat, 0x1_0000_0000);
        assert(lcm_spec(a, b) == l);
        assert((a as int) * q == l);
        assert(divides(a as int, l));
        assert((b as int) * p == l) by (nonlinear_arith)
            requires
                l == p * b,
        ;
        assert(divides(b as int, l));
    }
}

// ── wants aggregation ────────────────────────────────────

/// Aggregation state before any sink: inactive, no caps seen, alignment 1.
pub open spec fn wants_seed() -> VideoSinkWants {
    VideoSinkWants {
        is_active: false,
        max_pixel_count: u32::MAX,
        max_framerate_fps: u32::MAX,
        resolution_alignment: 1,
        rotation_applied: false,
    }
}

/// Folds one sink's wants into the aggregation state. An inactive sink
/// leaves the state as it is; an active one makes it active, lowers the caps
/// by its nonzero caps, and combines its alignment by lcm.
pub open spec fn wants_step(acc: VideoSinkWants, w: VideoSinkWants) -> VideoSinkWants {
    if !w.is_active {
        acc
    } else {
        VideoSinkWants {
            is_active: true,
            max_pixel_count: if w.max_pixel_count != 0 && w.max_pixel_count < acc.max_pixel_count {
                w.max_pixel_count
            } else {
                acc.max_pixel_count
            },
            max_framerate_fps: if w.max_framerate_fps != 0 && w.max_framerate_fps < acc.max_framerate_fps {
                w.max_framerate_fps
            } else {
                acc.max_framerate_fps
            },
            resolution_alignment: lcm_spec(acc.resolution_alignment, w.resolution_alignment),
            rotation_applied: false,
        }
    }
}

/// The aggregation state after folding all of `ws`, first to last.
pub open spec fn wants_fold(ws: Seq<VideoSinkWants>) -> VideoSinkWants
    decreases ws.len(),
{
    if ws.len() == 0 {
        wants_seed()
    } else {
        wants_step(wants_fold(ws.drop_last()), ws.last())
    }
}

/// Aggregate wants of a list of sinks: the default wants when there is none;
/// otherwise the fold, with both caps zeroed when no sink is active.
pub open spec fn aggregate_wants(ws: Seq<VideoSinkWants>) -> VideoSinkWants {
    if ws.len() == 0 {
        default_wants()
    } else {
        let a = wants_fold(ws);
        if a.is_active {
            a
        } else {
            VideoSinkWants { max_pixel_count: 0, max_framerate_fps: 0, ..a }
        }
    }
}

/// Positions of the active sinks among the first `n` of `ws`, in order.
pub open spec fn active_positions(ws: Seq<VideoSinkWants>, n: nat) -> Seq<usize>
    decreases n,
{
    if n == 0 {
        Seq::empty()
    } else {
        let rest = active_positions(ws, (n - 1) as nat);
        if ws[n - 1].is_active {
            rest.push((n - 1) as usize)
        } else {
            rest
        }
    }
}

/// Every listed position is that of an active sink among the first `n`.
pub(crate) proof fn lemma_active_positions(ws: Seq<VideoSinkWants>, n: nat)
    requires
        n <= ws.len(),
        ws.len() <= usize::MAX,
    ensures
        forall|k: int|
            0 <= k < active_positions(ws, n).len() ==> #[trigger] active_positions(ws, n)[k] < n
                && ws[active_positions(ws, n)[k] as int].is_active,
    decreases n,
{
    if n > 0 {
        let m = (n - 1) as nat;
        lemma_active_positions(ws, m);
        let rest = active_positions(ws, m);
        assert forall|k: int| 0 <= k < active_positions(ws, n).len() implies #[trigger] active_positions(ws, n)[k] < n
            && ws[active_positions(ws, n)[k] as int].is_active by {
            if k < rest.len() {
                assert(active_positions(ws, n)[k] == rest[k]);
            } else {
                assert(active_positions(ws, n)[k] == (n - 1) as usize);
                assert((n - 1) as usize == n - 1);
            }
        }
    }
}

#[verifier::reject_recursive_types(F)]
struct SinkEntry<F> {
    id: SinkId,
    sink: Box<dyn VideoSink<F>>,
    wants: VideoSinkWants,
}

/// Fan-out combinator that broadcasts frames to multiple downstream sinks.
///
/// `VideoBroadcaster<F>` implements both [`VideoSource<F>`] and
/// [`VideoSink<F>`]. The primary broadcast path is `send_frame`, which takes
/// an `Arc<F>` for zero-copy sharing across sinks.
#[verifier::reject_recursive_types(F)]
pub struct VideoBroadcaster<F> {
    sinks: Vec<SinkEntry<F>>,
    next_id: u64,
}

impl<F> VideoBroadcaster<F> {
    /// Wants of the registered sinks, in registration order.
    pub closed spec fn wants_list(&self) -> Seq<VideoSinkWants> {
        self.sinks@.map_values(|e: SinkEntry<F>| e.wants)
    }

    /// Ids of the registered sinks, in registration order.
    pub closed spec fn id_list(&self) -> Seq<SinkId> {
        self.sinks@.map_values(|e: SinkEntry<F>| e.id)
    }

    /// `(id, wants)` of the registered sinks, in registration order.
    pub closed spec fn entry_list(&self) -> Seq<(SinkId, VideoSinkWants)> {
        self.sinks@.map_values(|e: SinkEntry<F>| (e.id, e.wants))
    }

    /// The id and wants lists are the two halves of the entry list.
    pub proof fn lemma_entry_list(&self)
        ensures
            self.id_list().len() == self.entry_list().len(),
            self.wants_list().len() == self.entry_list().len(),
            forall|i: int| 0 <= i < self.entry_list().len() ==> #[trigger] self.entry_list()[i] == (self.id_list()[i], self.wants_list()[i]),
    {
    }

    /// The id that the next registration receives.
    pub closed spec fn next_sink_id(&self) -> SinkId {
        self.next_id
    }

    /// Ids are distinct and below the next id to hand out.
    pub open spec fn well_formed(&self) -> bool {
        &&& forall|i: int| 0 <= i < self.id_list().len() ==> #[trigger] self.id_list()[i] < self.next_sink_id()
        &&& forall|i: int, j: int|
            0 <= i < j < self.id_list().len() ==> #[trigger] self.id_list()[i] != #[trigger] self.id_list()[j]
    }

    /// An empty broadcaster; the first sink gets id 1.
    pub fn new() -> (b: Self)
        ensures
            b.wants_list() == Seq::<VideoSinkWants>::empty(),
            b.id_list() == Seq::<SinkId>::empty(),
            b.next_sink_id() == 1,
            b.well_formed(),
    {
        let b = VideoBroadcaster { sinks: Vec::new(), next_id: 1 };
        assert(b.wants_list() =~= Seq::<VideoSinkWants>::empty());
        assert(b.id_list() =~= Seq::<SinkId>::empty());
        b
    }

    /// Aggregate wants from all active sinks:
    ///
    /// - `max_pixel_count` → minimum across active sinks (zero values ignored).
    /// - `max_framerate_fps` → minimum across active sinks (zero values ignored).
    /// - `is_active` → `false` if ALL sinks are inactive (caps then reported as 0).
    /// - `resolution_alignment` → LCM of the active sinks' alignments.
    pub fn wants(&self) -> (w: VideoSinkWants)
        ensures
            w == aggregate_wants(self.wants_list()),
    {
        if self.sinks.len() == 0 {
            return VideoSinkWants::default();
        }
        let mut aggregated = VideoSinkWants {
            is_active: false,
            max_pixel_count: u32::MAX,
            max_framerate_fps: u32::MAX,
            resolution_alignment: 1,
            rotation_applied: false,
        };
        let ghost ws = self.wants_list();
        let mut i: usize = 0;
        while i < self.sinks.len()
            invariant
                i <= self.sinks@.len(),
                ws == self.wants_list(),
                ws.len() == self.sinks@.len(),
                aggregated == wants_fold(ws.take(i as int)),
            decreases self.sinks@.len() - i,
        {
            let w = self.sinks[i].wants;
            assert(w == ws[i as int]);
            assert(ws.take(i as int + 1).drop_last() =~= ws.take(i as int));
            if w.is_active {
                aggregated.is_active = true;
                if w.max_pixel_count != 0 && w.max_pixel_count < aggregated.max_pixel_count {
                    aggregated.max_pixel_count = w.max_pixel_count;
                }
                if w.max_framerate_fps != 0 && w.max_framerate_fps < aggregated.max_framerate_fps {
                    aggregated.max_framerate_fps = w.max_framerate_fps;
                }
                aggregated.resolution_alignment = lcm(aggregated.resolution_alignment, w.resolution_alignment);
                aggregated.rotation_applied = false;
            }
            i = i + 1;
        }
        assert(ws.take(ws.len() as int) =~= ws);
        if !aggregated.is_active {
            aggregated.max_pixel_count = 0;
            aggregated.max_framerate_fps = 0;
        }
        aggregated
    }

    /// The sinks a frame is handed to: the positions of the active sinks,
    /// in registration order.
    pub fn delivery_targets(&self) -> (t: Vec<usize>)
        ensures
            t@ == active_positions(self.wants_list(), self.wants_list().len()),
    {
        let ghost ws = self.wants_list();
        let mut t: Vec<usize> = Vec::new();
        let mut i: usize = 0;
        while i < self.sinks.len()
            invariant
                i <= self.sinks@.len(),
                ws == self.wants_list(),
                ws.len() == self.sinks@.len(),
                t@ == active_positions(ws, i as nat),
            decreases self.sinks@.len() - i,
        {
            assert(ws[i as int] == self.sinks@[i as int].wants);
            if self.sinks[i].wants.is_active {
                t.push(i);
            }
            i = i + 1;
        }
        t
    }

    /// Broadcast a frame to all active sinks, in registration order, stopping
    /// at the first sink that fails and returning its error. On success,
    /// returns the aggregated wants after delivery. Only an active sink can
    /// fail the broadcast, so with no active sink it succeeds.
    pub fn send_frame(&self, arc_frame: &Arc<F>) -> (r: Result<VideoSinkWants, MediaError>)
        ensures
            r is Ok ==> r == Ok::<VideoSinkWants, MediaError>(aggregate_wants(self.wants_list())),
            r is Err ==> exists|i: int| 0 <= i < self.wants_list().len() && #[trigger] self.wants_list()[i].is_active,
            (forall|i: int| 0 <= i < self.wants_list().len() ==> !#[trigger] self.wants_list()[i].is_active) ==> r is Ok,
    {
        let frame: &F = &**arc_frame;
        let targets = self.delivery_targets();
        let count = self.sinks.len();
        proof {
            lemma_active_positions(self.wants_list(), self.wants_list().len());
        }
        let mut k: usize = 0;
        while k < targets.len()
            invariant
                k <= targets@.len(),
                targets@ == active_positions(self.wants_list(), self.wants_list().len()),
                self.wants_list().len() == self.sinks@.len(),
                forall|j: int|
                    0 <= j < targets@.len() ==> #[trigger] targets@[j] < self.wants_list().len()
                        && self.wants_list()[targets@[j] as int].is_active,
            decreases targets@.len() - k,
        {
            let i = targets[k];
            assert(targets@[k as int] < self.wants_list().len());
            match self.sinks[i].sink.on_frame(frame) {
                Ok(_) => {},
                Err(e) => {
                    assert(self.wants_list()[i as int].is_active);
                    return Err(e);
                },
            }
            k = k + 1;
        }
        Ok(self.wants())
    }

    /// Number of registered sinks.
    pub fn sink_count(&self) -> (n: usize)
        ensures
            n == self.id_list().len(),
    {
        self.sinks.len()
    }
}

impl<F> VideoSource<F> for VideoBroadcaster<F> {
    /// Appends the sink with the next id; ids advance by one (wrapping).
    fn add_or_update_sink(&mut self, sink: Box<dyn VideoSink<F>>, wants: VideoSinkWants) -> (id: SinkId)
        ensures
            id == old(self).next_sink_id(),
            final(self).next_sink_id() == old(self).next_sink_id().wrapping_add(1),
            final(self).id_list() == old(self).id_list().push(id),
            final(self).wants_list() == old(self).wants_list().push(wants),
            final(self).entry_list() == old(self).entry_list().push((id, wants)),
            old(self).well_formed() && old(self).next_sink_id() < u64::MAX ==> final(self).well_formed(),
    {
        let id = self.next_id;
        let ghost old_sinks = self.sinks@;
        self.next_id = self.next_id.wrapping_add(1);
        let entry = SinkEntry { id, sink, wants };
        self.sinks.push(entry);
        assert(self.sinks@ == old_sinks.push(entry));
        proof { vstd::seq::axiom_seq_push_len(old_sinks, entry); }
        proof {
            let a = self.sinks@.map_values(|e: SinkEntry<F>| e.id);
            let b = old_sinks.map_values(|e: SinkEntry<F>| e.id).push(id);
            assert(a.len() == b.len());
            assert forall|i: int| 0 <= i < a.len() implies a[i] == b[i] by {
                if i < old_sinks.len() {
                    vstd::seq::axiom_seq_push_index_different(old_sinks, entry, i);
                } else {
                    vstd::seq::axiom_seq_push_index_same(old_sinks, entry, i);
                }
            }
            assert(a =~= b);
            let c = self.sinks@.map_values(|e: SinkEntry<F>| e.wants);
            let d = old_sinks.map_values(|e: SinkEntry<F>| e.wants).push(wants);
            assert forall|i: int| 0 <= i < c.len() implies c[i] == d[i] by {
                if i < old_sinks.len() {
                    vstd::seq::axiom_seq_push_index_different(old_sinks, entry, i);
                } else {
                    vstd::seq::axiom_seq_push_index_same(old_sinks, entry, i);
                }
            }
            assert(c =~= d);
            let e1 = self.sinks@.map_values(|e: SinkEntry<F>| (e.id, e.wants));
            let e2 = old_sinks.map_values(|e: SinkEntry<F>| (e.id, e.wants)).push((id, wants));
            assert forall|i: int| 0 <= i < e1.len() implies e1[i] == e2[i] by {
                if i < old_sinks.len() {
                    vstd::seq::axiom_seq_push_index_different(old_sinks, entry, i);
                } else {
                    vstd::seq::axiom_seq_push_index_same(old_sinks, entry, i);
                }
            }
            assert(e1 =~= e2);
        }
        id
    }

    /// Removes every sink registered under `id`, keeping the others in order.
    fn remove_sink(&mut self, id: SinkId)
        ensures
            final(self).next_sink_id() == old(self).next_sink_id(),
            final(self).id_list() == old(self).id_list().filter(|x: SinkId| x != id),
            final(self).entry_list() == old(self).entry_list().filter(|q: (SinkId, VideoSinkWants)| q.0 != id),
            old(self).well_formed() ==> final(self).well_formed(),
    {
        let ghost before = self.id_list();
        let ghost before_e = self.entry_list();
        let ghost p = |x: SinkId| x != id;
        let ghost pe = |q: (SinkId, VideoSinkWants)| q.0 != id;
        let mut rest: Vec<SinkEntry<F>> = Vec::new();
        std::mem::swap(&mut rest, &mut self.sinks);
        let ghost all = rest@;
        assert(self.sinks@.map_values(|e: SinkEntry<F>| e.id) =~= before.take(0).filter(p)) by {
            reveal_with_fuel(Seq::<_>::filter, 1);
        }
        assert(self.sinks@.map_values(|e: SinkEntry<F>| (e.id, e.wants)) =~= before_e.take(0).filter(pe)) by {
            reveal_with_fuel(Seq::<_>::filter, 1);
        }
        let mut k: usize = 0;
        let n = rest.len();
        while k < n
            invariant
                0 <= k <= n,
                n == all.len(),
                rest@ == all.subrange(k as int, n as int),
                before == all.map_values(|e: SinkEntry<F>| e.id),
                before_e == all.map_values(|e: SinkEntry<F>| (e.id, e.wants)),
                p == (|x: SinkId| x != id),
                pe == (|q: (SinkId, VideoSinkWants)| q.0 != id),
                self.sinks@.map_values(|e: SinkEntry<F>| (e.id, e.wants)) == before_e.take(k as int).filter(pe),
                self.next_id == old(self).next_id,
                self.sinks@.map_values(|e: SinkEntry<F>| e.id) == before.take(k as int).filter(p),
            decreases n - k,
        {
            let e = rest.remove(0);
            assert(e == all[k as int]);
            proof {
                let t = before.take(k as int + 1);
                assert(t =~= before.take(k as int).push(e.id));
                before.take(k as int).lemma_filter_push(e.id, p);
                let te = before_e.take(k as int + 1);
                assert(te =~= before_e.take(k as int).push((e.id, e.wants)));
                before_e.take(k as int).lemma_filter_push((e.id, e.wants), pe);
            }
            if e.id != id {
                let ghost prev = self.sinks@;
                let ghost ev = e;
                self.sinks.push(e);
                proof {
                    let a = self.sinks@.map_values(|e: SinkEntry<F>| e.id);
                    let b = prev.map_values(|e: SinkEntry<F>| e.id).push(ev.id);
                    let c = self.sinks@.map_values(|e: SinkEntry<F>| (e.id, e.wants));
                    let d = prev.map_values(|e: SinkEntry<F>| (e.id, e.wants)).push((ev.id, ev.wants));
                    vstd::seq::axiom_seq_push_len(prev, ev);
                    assert forall|i: int| 0 <= i < a.len() implies a[i] == b[i] && c[i] == d[i] by {
                        if i < prev.len() {
                            vstd::seq::axiom_seq_push_index_different(prev, ev, i);
                        } else {
                            vstd::seq::axiom_seq_push_index_same(prev, ev, i);
                        }
                    }
                    assert(a =~= b);
                    assert(c =~= d);
                }
            }
            assert(rest@ =~= all.subrange(k as int + 1, n as int));
            k = k + 1;
        }
        assert(before.take(n as int) =~= before);
        assert(before_e.take(n as int) =~= before_e);
        proof {
            if old(self).well_formed() {
                lemma_filter_keeps_ids(before, p, self.next_id);
            }
        }
    }
}

/// Filtering a list of distinct ids below `n` keeps them distinct and below `n`.
proof fn lemma_filter_keeps_ids(s: Seq<SinkId>, p: spec_fn(SinkId) -> bool, n: SinkId)
    requires
        forall|i: int| 0 <= i < s.len() ==> #[trigger] s[i] < n,
        forall|i: int, j: int| 0 <= i < j < s.len() ==> #[trigger] s[i] != #[trigger] s[j],
    ensures
        forall|i: int| 0 <= i < s.filter(p).len() ==> #[trigger] s.filter(p)[i] < n,
        forall|i: int, j: int|
            0 <= i < j < s.filter(p).len() ==> #[trigger] s.filter(p)[i] != #[trigger] s.filter(p)[j],
    decreases s.len(),
{
    reveal_with_fuel(Seq::<_>::filter, 1);
    if s.len() > 0 {
        let rest = s.drop_last();
        let last = s.last();
        lemma_filter_keeps_ids(rest, p, n);
        let f = rest.filter(p);
        assert(s.filter(p) == if p(last) { f.push(last) } else { f });
        if p(last) {
            assert forall|i: int| 0 <= i < f.len() implies #[trigger] f[i] != last by {
                assert(f.contains(f[i]));
                rest.lemma_filter_contains_rev(p, f[i]);
                let j = choose|j: int| 0 <= j < rest.len() && rest[j] == f[i];
                assert(s[j] != s[s.len() - 1]);
            }
            let g = f.push(last);
            assert forall|i: int, j: int| 0 <= i < j < g.len() implies #[trigger] g[i] != #[trigger] g[j] by {
                if j < f.len() {
                    assert(f[i] != f[j]);
                } else {
                    assert(f[i] != last);
                }
            }
        }
    }
}

impl<F> VideoSink<F> for VideoBroadcaster<F> {
    /// Entry-point for the collector role: reports the aggregated wants
    /// without distributing the frame (broadcasting goes through `send_frame`).
    fn on_frame(&self, _frame: &F) -> (r: Result<VideoSinkWants, MediaError>)
        ensures
            r == Ok::<VideoSinkWants, MediaError>(aggregate_wants(self.wants_list())),
    {
        Ok(self.wants())
    }
}


// ── laws ─────────────────────────────────────────────────

/// Registering a sink and then removing it by the id it received gives back
/// the previous list of sinks (ids below the next id, as `well_formed` keeps them).
pub proof fn law_add_then_remove_restores(entries: Seq<(SinkId, VideoSinkWants)>, id: SinkId, wants: VideoSinkWants)
    requires
        forall|i: int| 0 <= i < entries.len() ==> #[trigger] entries[i].0 < id,
    ensures
        entries.push((id, wants)).filter(|q: (SinkId, VideoSinkWants)| q.0 != id) == entries,
{
    let pe = |q: (SinkId, VideoSinkWants)| q.0 != id;
    entries.lemma_filter_push((id, wants), pe);
    lemma_filter_all_pass(entries, pe);
}

proof fn lemma_filter_all_pass<A>(s: Seq<A>, p: spec_fn(A) -> bool)
    requires
        forall|i: int| 0 <= i < s.len() ==> p(#[trigger] s[i]),
    ensures
        s.filter(p) == s,
    decreases s.len(),
{
    reveal_with_fuel(Seq::<_>::filter, 1);
    if s.len() > 0 {
        lemma_filter_all_pass(s.drop_last(), p);
        assert(p(s[s.len() - 1]));
        assert(s.drop_last().push(s.last()) =~= s);
    }
}

/// A broadcaster's entries: registering then removing by the returned id
/// restores them, stated over the entry list that `add_or_update_sink` and
/// `remove_sink` describe.
pub proof fn law_broadcaster_add_remove<F>(b: VideoBroadcaster<F>, wants: VideoSinkWants)
    requires
        b.well_formed(),
    ensures
        b.entry_list().push((b.next_sink_id(), wants)).filter(
            |q: (SinkId, VideoSinkWants)| q.0 != b.next_sink_id(),
        ) == b.entry_list(),
{
    b.lemma_entry_list();
    assert forall|i: int| 0 <= i < b.entry_list().len() implies #[trigger] b.entry_list()[i].0 < b.next_sink_id() by {
        assert(b.id_list()[i] < b.next_sink_id());
    }
    law_add_then_remove_restores(b.entry_list(), b.next_sink_id(), wants);
}

/// Every alignment lcm along the fold of `ws` stays within 32 bits.
pub open spec fn alignments_fit(ws: Seq<VideoSinkWants>) -> bool
    decreases ws.len(),
{
    if ws.len() == 0 {
        true
    } else {
        let a = wants_fold(ws.drop_last()).resolution_alignment;
        let b = ws.last().resolution_alignment;
        &&& alignments_fit(ws.drop_last())
        &&& (ws.last().is_active && a > 0 && b > 0 ==> (a as int / gcd_spec(a as nat, b as nat) as int) * b <= u32::MAX)
    }
}

proof fn lemma_divides_trans(a: int, b: int, c: int)
    requires
        divides(a, b),
        divides(b, c),
    ensures
        divides(a, c),
{
    let p = choose|p: int| #[trigger] (a * p) == b;
    let q = choose|q: int| #[trigger] (b * q) == c;
    assert(a * (p * q) == c) by (nonlinear_arith)
        requires
            a * p == b,
            b * q == c,
    ;
}

/// Aggregation as the fold computes it: the aggregated alignment is a
/// multiple of every nonzero alignment of an active sink (when no lcm along
/// the way overflows), every nonzero pixel or frame-rate cap of an active
/// sink bounds the aggregated one from above, and the aggregate is active
/// exactly when some sink is.
pub proof fn law_fold_wants(ws: Seq<VideoSinkWants>)
    requires
        alignments_fit(ws),
    ensures
        wants_fold(ws).resolution_alignment > 0,
        forall|i: int|
            0 <= i < ws.len() && ws[i].is_active && #[trigger] ws[i].resolution_alignment > 0 ==> divides(
                ws[i].resolution_alignment as int,
                wants_fold(ws).resolution_alignment as int,
            ),
        forall|i: int|
            0 <= i < ws.len() && ws[i].is_active && #[trigger] ws[i].max_pixel_count != 0 ==> wants_fold(ws).max_pixel_count
                <= ws[i].max_pixel_count,
        forall|i: int|
            0 <= i < ws.len() && ws[i].is_active && #[trigger] ws[i].max_framerate_fps != 0 ==> wants_fold(ws).max_framerate_fps
                <= ws[i].max_framerate_fps,
        wants_fold(ws).is_active <==> exists|i: int| 0 <= i < ws.len() && #[trigger] ws[i].is_active,
    decreases ws.len(),
{
    if ws.len() > 0 {
        let rest = ws.drop_last();
        law_fold_wants(rest);
        let acc = wants_fold(rest);
        let w = ws.last();
        if !w.is_active {
            assert forall|i: int|
                0 <= i < ws.len() && ws[i].is_active && #[trigger] ws[i].resolution_alignment > 0 implies divides(
                ws[i].resolution_alignment as int,
                wants_fold(ws).resolution_alignment as int,
            ) by {
                assert(ws[i] == rest[i]);
            }
            assert forall|i: int|
                0 <= i < ws.len() && ws[i].is_active && #[trigger] ws[i].max_pixel_count != 0 implies wants_fold(ws).max_pixel_count
                <= ws[i].max_pixel_count by {
                assert(ws[i] == rest[i]);
            }
            assert forall|i: int|
                0 <= i < ws.len() && ws[i].is_active && #[trigger] ws[i].max_framerate_fps != 0 implies wants_fold(ws).max_framerate_fps
                <= ws[i].max_framerate_fps by {
                assert(ws[i] == rest[i]);
            }
            if wants_fold(ws).is_active {
                let j = choose|j: int| 0 <= j < rest.len() && #[trigger] rest[j].is_active;
                assert(ws[j] == rest[j]);
            }
            if exists|i: int| 0 <= i < ws.len() && #[trigger] ws[i].is_active {
                let j = choose|j: int| 0 <= j < ws.len() && #[trigger] ws[j].is_active;
                assert(rest[j] == ws[j]);
            }
        } else {
            let a = acc.resolution_alignment;
            let b = w.resolution_alignment;
            law_lcm_common_multiple(a, b);
            let l = lcm_spec(a, b);
            if b > 0 {
                lemma_gcd_bound(a as nat, b as nat);
                law_gcd_divides(a as nat, b as nat);
            }
            assert(l > 0) by {
                if a > 0 && b > 0 {
                    let g = gcd_spec(a as nat, b as nat) as int;
                    let p = choose|p: int| #[trigger] (g * p) == a as int;
                    vstd::arithmetic::div_mod::lemma_div_multiples_vanish(p, g);
                    assert(p > 0) by (nonlinear_arith)
                        requires
                            g * p == a,
                            g > 0,
                            a > 0,
                    ;
                    assert((a as int / g) * b > 0) by (nonlinear_arith)
                        requires
                            a as int / g == p,
                            p > 0,
                            b > 0,
                    ;
                    vstd::arithmetic::div_mod::lemma_small_mod(((a as int / g) * b) as nat, 0x1_0000_0000);
                }
            }
            assert forall|i: int|
                0 <= i < ws.len() && ws[i].is_active && #[trigger] ws[i].resolution_alignment > 0 implies divides(
                ws[i].resolution_alignment as int,
                wants_fold(ws).resolution_alignment as int,
            ) by {
                if i < ws.len() - 1 {
                    assert(ws[i] == rest[i]);
                    if b == 0 {
                        assert((a as int) * 1 == l);
                    }
                    lemma_divides_trans(ws[i].resolution_alignment as int, a as int, l as int);
                } else {
                    if a == 0 {
                        assert(b * 1 == l);
                    }
                }
            }
            assert forall|i: int|
                0 <= i < ws.len() && ws[i].is_active && #[trigger] ws[i].max_pixel_count != 0 implies wants_fold(ws).max_pixel_count
                <= ws[i].max_pixel_count by {
                if i < ws.len() - 1 {
                    assert(ws[i] == rest[i]);
                }
            }
            assert forall|i: int|
                0 <= i < ws.len() && ws[i].is_active && #[trigger] ws[i].max_framerate_fps != 0 implies wants_fold(ws).max_framerate_fps
                <= ws[i].max_framerate_fps by {
                if i < ws.len() - 1 {
                    assert(ws[i] == rest[i]);
                }
            }
            if wants_fold(ws).is_active {
                if acc.is_active {
                    let j = choose|j: int| 0 <= j < rest.len() && #[trigger] rest[j].is_active;
                    assert(ws[j] == rest[j]);
                } else {
                    assert(ws[ws.len() - 1].is_active);
                }
            }
            if exists|i: int| 0 <= i < ws.len() && #[trigger] ws[i].is_active {
                let j = choose|j: int| 0 <= j < ws.len() && #[trigger] ws[j].is_active;
                if j < ws.len() - 1 {
                    assert(rest[j] == ws[j]);
                }
            }
        }
    } else {
        assert(1 * 1 == 1);
    }
}

/// The fold is active exactly when some sink is.
proof fn lemma_fold_active(ws: Seq<VideoSinkWants>)
    ensures
        wants_fold(ws).is_active <==> exists|i: int| 0 <= i < ws.len() && #[trigger] ws[i].is_active,
    decreases ws.len(),
{
    if ws.len() > 0 {
        let rest = ws.drop_last();
        lemma_fold_active(rest);
        if exists|i: int| 0 <= i < rest.len() && #[trigger] rest[i].is_active {
            let j = choose|j: int| 0 <= j < rest.len() && #[trigger] rest[j].is_active;
            assert(ws[j] == rest[j]);
        }
        if exists|i: int| 0 <= i < ws.len() && #[trigger] ws[i].is_active {
            let j = choose|j: int| 0 <= j < ws.len() && #[trigger] ws[j].is_active;
            if j < ws.len() - 1 {
                assert(rest[j] == ws[j]);
            }
        }
    }
}

/// One of a sink's two caps: the pixel count, or the frame rate.
pub open spec fn cap_of(w: VideoSinkWants, pixels: bool) -> u32 {
    if pixels { w.max_pixel_count } else { w.max_framerate_fps }
}

/// Sink `i` of `ws` is active and sets a nonzero cap.
pub open spec fn caps(ws: Seq<VideoSinkWants>, i: int, pixels: bool) -> bool {
    0 <= i < ws.len() && ws[i].is_active && cap_of(ws[i], pixels) != 0
}

/// Along the fold, a cap is the least nonzero cap of the active sinks so
/// far, or still unlimited when none has set one.
proof fn lemma_fold_caps(ws: Seq<VideoSinkWants>, pixels: bool)
    ensures
        forall|i: int| #[trigger] caps(ws, i, pixels) ==> cap_of(wants_fold(ws), pixels) <= cap_of(ws[i], pixels),
        (forall|i: int| !#[trigger] caps(ws, i, pixels)) ==> cap_of(wants_fold(ws), pixels) == u32::MAX,
        (exists|i: int| #[trigger] caps(ws, i, pixels)) ==> exists|j: int|
            #[trigger] caps(ws, j, pixels) && cap_of(wants_fold(ws), pixels) == cap_of(ws[j], pixels),
    decreases ws.len(),
{
    if ws.len() > 0 {
        let rest = ws.drop_last();
        lemma_fold_caps(rest, pixels);
        let n = ws.len() - 1;
        assert forall|i: int| 0 <= i < n implies #[trigger] caps(ws, i, pixels) == caps(rest, i, pixels) by {
            assert(ws[i] == rest[i]);
        }
        let a = cap_of(wants_fold(rest), pixels);
        let f = cap_of(wants_fold(ws), pixels);
        assert forall|i: int| #[trigger] caps(ws, i, pixels) implies f <= cap_of(ws[i], pixels) by {
            if i < n {
                assert(caps(rest, i, pixels));
            }
        }
        if forall|i: int| !#[trigger] caps(ws, i, pixels) {
            assert forall|i: int| !#[trigger] caps(rest, i, pixels) by {
                if 0 <= i < n {
                    assert(!caps(ws, i, pixels));
                }
            }
            assert(!caps(ws, n, pixels));
        }
        if exists|i: int| #[trigger] caps(ws, i, pixels) {
            if caps(ws, n, pixels) && cap_of(ws[n], pixels) < a {
                assert(f == cap_of(ws[n], pixels));
            } else if exists|i: int| #[trigger] caps(rest, i, pixels) {
                let j = choose|j: int| #[trigger] caps(rest, j, pixels) && a == cap_of(rest[j], pixels);
                assert(caps(ws, j, pixels));
                assert(f == a);
            } else {
                assert(caps(ws, n, pixels));
                assert(a == u32::MAX);
                assert(f == cap_of(ws[n], pixels));
            }
        }
    }
}

/// What the aggregated caps are: when some active sink sets a nonzero cap,
/// the aggregate is the least nonzero cap among the active sinks (so it is
/// nonzero, and a sink's 0, meaning "no limit", never lowers it); when
/// sinks are active but none sets the cap, it stays unlimited (`u32::MAX`);
/// when no sink is active, it is reported as 0.
pub proof fn law_wants_caps(ws: Seq<VideoSinkWants>, pixels: bool)
    ensures
        (exists|i: int| #[trigger] caps(ws, i, pixels)) ==> {
            let c = cap_of(aggregate_wants(ws), pixels);
            &&& c != 0
            &&& exists|j: int| #[trigger] caps(ws, j, pixels) && c == cap_of(ws[j], pixels)
            &&& forall|j: int| #[trigger] caps(ws, j, pixels) ==> c <= cap_of(ws[j], pixels)
        },
        (exists|i: int| 0 <= i < ws.len() && #[trigger] ws[i].is_active) && (forall|i: int|
            !#[trigger] caps(ws, i, pixels)) ==> cap_of(aggregate_wants(ws), pixels) == u32::MAX,
        (forall|i: int| 0 <= i < ws.len() ==> !#[trigger] ws[i].is_active) && ws.len() > 0 ==> cap_of(
            aggregate_wants(ws),
            pixels,
        ) == 0,
{
    lemma_fold_caps(ws, pixels);
    lemma_fold_active(ws);
    if exists|i: int| #[trigger] caps(ws, i, pixels) {
        let i = choose|i: int| #[trigger] caps(ws, i, pixels);
        assert(ws[i].is_active);
    }
}

} // verus!
