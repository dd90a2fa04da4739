//! Fan-out of encoded fragments: a broadcaster publishes each packet to
//! every subscriber over a tokio broadcast channel, and a registry keeps
//! one broadcaster per (source, track).

use vstd::prelude::*;
use std::sync::Arc;
use vstd::string::StringExecFns;
use super::nodes::{
    FormatSpec, MediaSource, MediaType, NodeCapability, NodeInfo, PipelineError, PipelineNode,
};

verus! {

#[verifier::external_type_specification]
#[verifier::external_body]
#[verifier::reject_recursive_types(T)]
pub struct ExBroadcastSender<T>(tokio::sync::broadcast::Sender<T>);

#[verifier::external_type_specification]
#[verifier::external_body]
#[verifier::reject_recursive_types(T)]
pub struct ExBroadcastReceiver<T>(tokio::sync::broadcast::Receiver<T>);

/// `tokio::sync::broadcast::channel(capacity)`, keeping the sender. It
/// panics for a capacity of 0 or above `usize::MAX / 2`, which `requires`
/// leaves out.
#[verifier::external_body]
fn broadcast_sender<P: Clone>(capacity: usize) -> tokio::sync::broadcast::Sender<P>
    requires
        0 < capacity <= usize::MAX / 2,
{
    tokio::sync::broadcast::channel(capacity).0
}

/// `Sender::send`: hands the packet to the current subscribers; with none
/// the packet is dropped. Subscribers are shared state, so nothing is
/// stated.
#[verifier::external_body]
fn broadcast_send<P>(tx: &tokio::sync::broadcast::Sender<P>, packet: P) {
    let _ = tx.send(packet);
}

/// `Sender::receiver_count`: the number of live subscribers, which depends
/// on shared state and is not stated.
#[verifier::external_body]
fn broadcast_receiver_count<P>(tx: &tokio::sync::broadcast::Sender<P>) -> usize {
    tx.receiver_count()
}

/// `Sender::subscribe`: a new subscriber that sees packets sent from now on.
#[verifier::external_body]
fn broadcast_subscribe<P>(tx: &tokio::sync::broadcast::Sender<P>) -> tokio::sync::broadcast::Receiver<P> {
    tx.subscribe()
}

/// What one non-blocking receive gives.
pub enum Received<P> {
    /// The next packet.
    Packet(P),
    /// No packet waiting.
    Empty,
    /// Every sender is gone.
    Closed,
    /// The subscriber fell behind and this many packets were skipped.
    Lagged(u64),
}

/// `Receiver::try_recv`, each outcome mapped to its `Received` variant. It
/// depends on the channel's shared state; nothing is stated.
#[verifier::external_body]
fn broadcast_try_recv<P: Clone>(rx: &mut tokio::sync::broadcast::Receiver<P>) -> Received<P> {
    match rx.try_recv() {
        Ok(packet) => Received::Packet(packet),
        Err(tokio::sync::broadcast::error::TryRecvError::Empty) => Received::Empty,
        Err(tokio::sync::broadcast::error::TryRecvError::Closed) => Received::Closed,
        Err(tokio::sync::broadcast::error::TryRecvError::Lagged(n)) => Received::Lagged(n),
    }
}

/// `Arc::clone`: another pointer to the same value.
#[verifier::external_body]
fn arc_clone<T>(a: &Arc<T>) -> (r: Arc<T>)
    ensures
        *r == **a,
{
    Arc::clone(a)
}

/// Metadata describing what a broadcaster carries.
#[derive(Debug)]
pub struct BroadcasterMeta {
    pub source_id: String,
    pub track_id: String,
    pub codec: String,
}

impl Clone for BroadcasterMeta {
    /// A copy of each field.
    fn clone(&self) -> (m: Self)
        ensures
            m == *self,
    {
        BroadcasterMeta {
            source_id: self.source_id.clone(),
            track_id: self.track_id.clone(),
            codec: self.codec.clone(),
        }
    }
}

/// Single-producer, multi-subscriber broadcaster.
#[verifier::reject_recursive_types(P)]
pub struct FragmentBroadcaster<P> {
    tx: tokio::sync::broadcast::Sender<P>,
    meta: BroadcasterMeta,
    capacity: Ghost<usize>,
}

impl<P: Clone> FragmentBroadcaster<P> {
    /// The metadata.
    pub closed spec fn meta_spec(&self) -> BroadcasterMeta {
        self.meta
    }

    /// The number of packets its channel holds in flight.
    pub closed spec fn capacity_spec(&self) -> usize {
        self.capacity@
    }

    /// A broadcaster whose channel holds up to `capacity` packets.
    pub fn new(capacity: usize, meta: BroadcasterMeta) -> (b: Self)
        requires
            0 < capacity <= usize::MAX / 2,
        ensures
            b.meta_spec() == meta,
            b.capacity_spec() == capacity,
    {
        FragmentBroadcaster { tx: broadcast_sender(capacity), meta, capacity: Ghost(capacity) }
    }

    /// Publish a packet. Returns the current subscriber count. Never blocks.
    pub fn emit(&self, packet: P) -> usize {
        broadcast_send(&self.tx, packet);
        broadcast_receiver_count(&self.tx)
    }

    /// Create a new subscriber stream, carrying this broadcaster's metadata.
    pub fn subscribe(&self) -> (s: BroadcastStream<P>)
        ensures
            s.meta_spec() == self.meta_spec(),
    {
        BroadcastStream { rx: broadcast_subscribe(&self.tx), _meta: self.meta.clone() }
    }

    pub fn meta(&self) -> (m: &BroadcasterMeta)
        ensures
            *m == self.meta_spec(),
    {
        &self.meta
    }
}

/// Subscriber stream of a broadcaster, as a media source.
#[verifier::reject_recursive_types(P)]
pub struct BroadcastStream<P> {
    rx: tokio::sync::broadcast::Receiver<P>,
    _meta: BroadcasterMeta,
}

impl<P> BroadcastStream<P> {
    /// The metadata of the broadcaster the stream subscribed to.
    pub closed spec fn meta_spec(&self) -> BroadcasterMeta {
        self._meta
    }
}

/// The packet of a receive outcome, if it carries one.
pub fn received_packet<P>(r: Received<P>) -> (p: Option<P>)
    ensures
        r matches Received::Packet(x) ==> p == Some(x),
        !(r is Packet) ==> p is None,
{
    match r {
        Received::Packet(x) => Some(x),
        _ => None,
    }
}

/// Whether a receive outcome calls for one more try: the subscriber lagged
/// and skipped packets, so the next one may be waiting.
pub fn retry_after<P>(r: &Received<P>) -> (b: bool)
    ensures
        b == (*r is Lagged),
{
    match r {
        Received::Lagged(_) => true,
        _ => false,
    }
}

impl<P> NodeInfo for BroadcastStream<P> {
    fn name(&self) -> (n: &str)
        ensures
            n@ == seq!['b', 'r', 'o', 'a', 'd', 'c', 'a', 's', 't', '-', 's', 't', 'r', 'e', 'a', 'm'],
    {
        proof {
            reveal_strlit("broadcast-stream");
        }
        "broadcast-stream"
    }

    fn capabilities(&self) -> (c: NodeCapability)
        ensures
            c.input.media_type == MediaType::Both,
            c.input.codecs is None,
            c.input.pixel_formats@.len() == 0,
            c.output.media_type == MediaType::Both,
            c.output.codecs is None,
            c.output.pixel_formats@.len() == 0,
    {
        NodeCapability {
            input: FormatSpec { media_type: MediaType::Both, codecs: None, pixel_formats: Vec::new() },
            output: FormatSpec { media_type: MediaType::Both, codecs: None, pixel_formats: Vec::new() },
        }
    }
}

impl<P> PipelineNode for BroadcastStream<P> {
    fn on_start(&mut self) -> (r: Result<(), PipelineError>)
        ensures
            r is Ok,
    {
        Ok(())
    }

    fn on_stop(&mut self) -> (r: Result<(), PipelineError>)
        ensures
            r is Ok,
    {
        Ok(())
    }
}

impl<P: Clone> MediaSource for BroadcastStream<P> {
    type Output = P;

    /// The next packet, if one is waiting. After falling behind, the
    /// skipped packets are dropped and one more receive is tried. Closed
    /// or empty channels give none; this never fails.
    fn poll_fragment(&mut self) -> (r: Result<Option<P>, PipelineError>)
        ensures
            r is Ok,
    {
        let first = broadcast_try_recv(&mut self.rx);
        if retry_after(&first) {
            Ok(received_packet(broadcast_try_recv(&mut self.rx)))
        } else {
            Ok(received_packet(first))
        }
    }
}

/// A registry key: source id and track id.
pub type StreamKey = (Seq<char>, Seq<char>);

/// Packets a registry's broadcasters hold in flight: about one to two
/// seconds at 60 fps.
pub const REGISTRY_CAPACITY: usize = 1024;

/// Central registry of broadcasters, one per (source id, track id).
pub struct PipelineRegistry {
    broadcasters: Vec<(String, String, Arc<FragmentBroadcaster<Vec<u8>>>)>,
}

impl PipelineRegistry {
    /// The keys of the registered broadcasters, in registration order.
    pub closed spec fn keys(&self) -> Seq<StreamKey> {
        self.broadcasters@.map_values(|e: (String, String, Arc<FragmentBroadcaster<Vec<u8>>>)| (e.0@, e.1@))
    }

    /// The metadata of the broadcaster registered `i`-th.
    pub closed spec fn meta_at(&self, i: int) -> BroadcasterMeta {
        self.broadcasters@[i].2.meta_spec()
    }

    /// The broadcaster registered `i`-th.
    pub closed spec fn broadcaster_at(&self, i: int) -> FragmentBroadcaster<Vec<u8>> {
        *self.broadcasters@[i].2
    }

    /// Every registered broadcaster holds `REGISTRY_CAPACITY` packets in
    /// flight.
    pub closed spec fn at_registry_capacity(&self) -> bool {
        forall|i: int| 0 <= i < self.keys().len() ==> (#[trigger] self.broadcaster_at(i)).capacity_spec()
            == REGISTRY_CAPACITY
    }

    /// No key is registered twice.
    pub closed spec fn wf(&self) -> bool {
        self.keys().no_duplicates()
    }

    pub fn new() -> (r: Self)
        ensures
            r.wf(),
            r.keys() == Seq::<StreamKey>::empty(),
            r.at_registry_capacity(),
    {
        let r = PipelineRegistry { broadcasters: Vec::new() };
        assert(r.keys() =~= Seq::<StreamKey>::empty());
        r
    }

    /// Where the key `(source_id, track_id)` is registered, if it is.
    fn position(&self, source_id: &str, track_id: &str) -> (i: Option<usize>)
        ensures
            i matches Some(k) ==> k < self.keys().len() && self.keys()[k as int] == (source_id@, track_id@),
            i is None ==> !self.keys().contains((source_id@, track_id@)),
    {
        let src = String::from_str(source_id);
        let trk = String::from_str(track_id);
        let mut i: usize = 0;
        while i < self.broadcasters.len()
            invariant
                i <= self.broadcasters@.len(),
                src@ == source_id@,
                trk@ == track_id@,
                forall|j: int| 0 <= j < i ==> self.keys()[j] != (source_id@, track_id@),
            decreases self.broadcasters@.len() - i,
        {
            let entry = &self.broadcasters[i];
            assert(self.keys()[i as int] == (entry.0@, entry.1@));
            if entry.0 == src && entry.1 == trk {
                return Some(i);
            }
            i = i + 1;
        }
        None
    }

    /// The broadcaster for `(source_id, track_id)`, created with `codec`
    /// and the registry capacity if the key is not registered yet.
    pub fn get_or_create(&mut self, source_id: &str, track_id: &str, codec: &str) -> (b: Arc<FragmentBroadcaster<Vec<u8>>>)
        requires
            old(self).wf(),
        ensures
            final(self).wf(),
            old(self).keys().contains((source_id@, track_id@)) ==> {
                &&& final(self).keys() == old(self).keys()
                &&& exists|i: int|
                    0 <= i < old(self).keys().len() && old(self).keys()[i] == (source_id@, track_id@)
                        && (*b).meta_spec() == #[trigger] old(self).meta_at(i)
            },
            !old(self).keys().contains((source_id@, track_id@)) ==> {
                &&& final(self).keys() == old(self).keys().push((source_id@, track_id@))
                &&& (*b).meta_spec().source_id@ == source_id@
                &&& (*b).meta_spec().track_id@ == track_id@
                &&& (*b).meta_spec().codec@ == codec@
            },
            // the broadcaster handed out is the one the registry holds for the key
            exists|i: int|
                0 <= i < final(self).keys().len() && final(self).keys()[i] == (source_id@, track_id@) && *b
                    == #[trigger] final(self).broadcaster_at(i),
            // the broadcasters registered before stay where they were
            forall|j: int|
                0 <= j < old(self).keys().len() ==> #[trigger] final(self).broadcaster_at(j) == old(
                    self,
                ).broadcaster_at(j),
            // a new broadcaster holds the registry's capacity of packets in flight
            !old(self).keys().contains((source_id@, track_id@)) ==> (*b).capacity_spec() == REGISTRY_CAPACITY,
            old(self).at_registry_capacity() ==> final(self).at_registry_capacity(),
            old(self).at_registry_capacity() ==> (*b).capacity_spec() == REGISTRY_CAPACITY,
    {
        match self.position(source_id, track_id) {
            Some(i) => {
                let b = arc_clone(&self.broadcasters[i].2);
                assert(old(self).meta_at(i as int) == (*b).meta_spec());
                assert(*b == self.broadcaster_at(i as int));
                assert(self.keys()[i as int] == (source_id@, track_id@));
                b
            },
            None => {
                let meta = BroadcasterMeta {
                    source_id: String::from_str(source_id),
                    track_id: String::from_str(track_id),
                    codec: String::from_str(codec),
                };
                let b = Arc::new(FragmentBroadcaster::new(REGISTRY_CAPACITY, meta));
                let r = arc_clone(&b);
                self.broadcasters.push((String::from_str(source_id), String::from_str(track_id), b));
                proof {
                    let v = |e: (String, String, Arc<FragmentBroadcaster<Vec<u8>>>)| (e.0@, e.1@);
                    assert(self.broadcasters@.map_values(v) =~= old(self).broadcasters@.map_values(v).push(
                        (source_id@, track_id@),
                    ));
                    let n = old(self).broadcasters@.len() as int;
                    assert(*r == self.broadcaster_at(n));
                    assert(self.keys()[n] == (source_id@, track_id@));
                    assert forall|j: int| 0 <= j < n implies #[trigger] self.broadcaster_at(j)
                        == old(self).broadcaster_at(j) by {
                        assert(self.broadcasters@[j] == old(self).broadcasters@[j]);
                    }
                }
                r
            },
        }
    }

    /// Every broadcaster a registry hands out holds `REGISTRY_CAPACITY`
    /// (1024) packets in flight: a new registry has the property, and
    /// `get_or_create` and `remove` keep it.
    pub proof fn law_registry_capacity(&self, i: int)
        requires
            self.at_registry_capacity(),
            0 <= i < self.keys().len(),
        ensures
            self.broadcaster_at(i).capacity_spec() == 1024,
    {
    }

    /// A well-formed registry holds one broadcaster per key: two positions
    /// with the same key hold the same broadcaster. With `get_or_create`'s
    /// contract this gives that a second call with a key returns the
    /// broadcaster the first one did.
    pub proof fn law_one_broadcaster_per_key(&self, i: int, j: int)
        requires
            self.wf(),
            0 <= i < self.keys().len(),
            0 <= j < self.keys().len(),
            self.keys()[i] == self.keys()[j],
        ensures
            i == j,
            self.broadcaster_at(i) == self.broadcaster_at(j),
    {
    }

    /// Remove the broadcaster of `(source_id, track_id)`, if registered.
    pub fn remove(&mut self, source_id: &str, track_id: &str)
        requires
            old(self).wf(),
        ensures
            final(self).wf(),
            old(self).at_registry_capacity() ==> final(self).at_registry_capacity(),
            final(self).keys().to_set() == old(self).keys().to_set().remove((source_id@, track_id@)),
            final(self).keys().len() == old(self).keys().len() - if old(self).keys().contains(
                (source_id@, track_id@),
            ) {
                1int
            } else {
                0int
            },
    {
        match self.position(source_id, track_id) {
            Some(i) => {
                let ghost k0 = self.keys();
                let ghost b0 = self.broadcasters@;
                let _ = self.broadcasters.remove(i);
                proof {
                    assert(self.broadcasters@ == b0.remove(i as int));
                    if old(self).at_registry_capacity() {
                        assert forall|j: int| 0 <= j < self.keys().len() implies (#[trigger] self.broadcaster_at(
                            j,
                        )).capacity_spec() == REGISTRY_CAPACITY by {
                            if j < i {
                                assert(self.broadcaster_at(j) == old(self).broadcaster_at(j));
                            } else {
                                assert(self.broadcaster_at(j) == old(self).broadcaster_at(j + 1));
                            }
                        }
                    }
                    let v = |e: (String, String, Arc<FragmentBroadcaster<Vec<u8>>>)| (e.0@, e.1@);
                    assert(self.keys() =~= k0.remove(i as int));
                    assert forall|x: StreamKey| #[trigger] self.keys().to_set().contains(x) == k0.to_set().remove(
                        (source_id@, track_id@),
                    ).contains(x) by {
                        if self.keys().contains(x) {
                            let j = choose|j: int| 0 <= j < self.keys().len() && self.keys()[j] == x;
                            if j < i {
                                assert(k0[j] == x);
                            } else {
                                assert(k0[j + 1] == x);
                            }
                        }
                        if k0.contains(x) && x != (source_id@, track_id@) {
                            let j = choose|j: int| 0 <= j < k0.len() && k0[j] == x;
                            if j < i {
                                assert(self.keys()[j] == x);
                            } else {
                                assert(self.keys()[j - 1] == x);
                            }
                        }
                    }
                    assert(self.keys().to_set() =~= k0.to_set().remove((source_id@, track_id@)));
                }
            },
            None => {
                proof {
                    assert(self.keys().to_set() =~= self.keys().to_set().remove((source_id@, track_id@)));
                }
            },
        }
    }

    /// The number of registered broadcasters.
    pub fn len(&self) -> (n: usize)
        ensures
            n == self.keys().len(),
    {
        self.broadcasters.len()
    }

    /// Whether no broadcaster is registered.
    pub fn is_empty(&self) -> (b: bool)
        ensures
            b == (self.keys().len() == 0),
    {
        self.broadcasters.len() == 0
    }
}

impl Default for PipelineRegistry {
    fn default() -> (r: Self)
        ensures
            r.wf(),
            r.keys() == Seq::<StreamKey>::empty(),
    {
        PipelineRegistry::new()
    }
}

} // verus!
