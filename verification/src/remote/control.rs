//! Control frames for the data channel: each JSON body signed with an
//! 8-byte HMAC-SHA256 tag, held in a short send queue that drops its oldest
//! frame when full.

use vstd::prelude::*;
use std::collections::VecDeque;
use hmac::Mac;

verus! {

/// The HMAC-SHA256 of `message` under `key` (RFC 2104 over FIPS 180-4
/// SHA-256), all 32 bytes.
pub uninterp spec fn hmac_sha256(key: Seq<u8>, message: Seq<u8>) -> Seq<u8>;

/// `Hmac::<Sha256>::new_from_slice(key)`, `update(message)`, `finalize()`
/// and `into_bytes()`: the 32-byte MAC, named by `hmac_sha256`. HMAC takes
/// keys of any length, so `new_from_slice` never fails (the crate's source
/// returns `Ok` for every key); that is stated.
#[verifier::external_body]
fn hmac_sha256_mac(key: &[u8], message: &[u8]) -> (r: Option<Vec<u8>>)
    ensures
        r is Some,
        r matches Some(mac) ==> (mac@ == hmac_sha256(key@, message@) && mac@.len() == 32),
{
    match hmac::Hmac::<sha2::Sha256>::new_from_slice(key) {
        Ok(mut mac) => {
            mac.update(message);
            Some(mac.finalize().into_bytes().to_vec())
        },
        Err(_) => None,
    }
}

/// The first eight bytes of the HMAC-SHA256 of `payload` under `key_label`.
pub open spec fn hmac_tag(payload: Seq<u8>, key_label: Seq<u8>) -> Seq<u8> {
    hmac_sha256(key_label, payload).subrange(0, 8)
}

/// Compute the 8-byte HMAC-SHA256 tag of `payload`, keyed by `key_label`.
pub fn compute_hmac_tag(payload: &[u8], key_label: &[u8]) -> (tag: [u8; 8])
    ensures
        tag@ == hmac_tag(payload@, key_label@),
{
    let mut tag = [0u8; 8];
    match hmac_sha256_mac(key_label, payload) {
        Some(mac) => {
            let mut i: usize = 0;
            while i < 8
                invariant
                    i <= 8,
                    mac@.len() == 32,
                    mac@ == hmac_sha256(key_label@, payload@),
                    forall|j: int| 0 <= j < i ==> tag@[j] == mac@[j],
                decreases 8 - i,
            {
                tag[i] = mac[i];
                i = i + 1;
            }
            assert(tag@ =~= hmac_tag(payload@, key_label@));
        },
        None => {},
    }
    tag
}

/// A signed control message ready for data-channel send.
#[derive(Debug, Clone)]
pub struct SignedFrame {
    /// JSON-encoded control frame body.
    pub body: String,
    /// 8-byte HMAC tag for the body.
    pub tag: [u8; 8],
}

/// How many signed frames wait at most before the oldest is dropped.
pub const MAX_DEPTH: usize = 3;

/// Control sender: signs frame bodies with HMAC and holds them until sent.
pub struct ControlSender {
    key_label: Vec<u8>,
    buffer: VecDeque<SignedFrame>,
    max_depth: usize,
    rate_hz: u32,
}

impl ControlSender {
    /// The HMAC key.
    pub closed spec fn key_spec(&self) -> Seq<u8> {
        self.key_label@
    }

    /// The waiting frames, as (body, tag) pairs, oldest first.
    pub closed spec fn queue(&self) -> Seq<(Seq<char>, Seq<u8>)> {
        self.buffer@.map_values(|f: SignedFrame| (f.body@, f.tag@))
    }

    /// The send rate in Hz.
    pub closed spec fn rate_spec(&self) -> u32 {
        self.rate_hz
    }

    /// The queue never holds more than `MAX_DEPTH` frames.
    pub closed spec fn wf(&self) -> bool {
        &&& self.max_depth == MAX_DEPTH
        &&& self.buffer@.len() <= MAX_DEPTH
    }

    /// Create a new control sender with the given HMAC key label and rate.
    pub fn new(key_label: &str, rate_hz: u32) -> (s: Self)
        ensures
            s.wf(),
            s.key_spec() == vstd::utf8::encode_utf8(key_label@),
            s.queue() == Seq::<(Seq<char>, Seq<u8>)>::empty(),
            s.rate_spec() == rate_hz,
    {
        let bytes = key_label.as_bytes();
        let mut key: Vec<u8> = Vec::new();
        let mut i: usize = 0;
        while i < bytes.len()
            invariant
                i <= bytes@.len(),
                key@ == bytes@.subrange(0, i as int),
            decreases bytes@.len() - i,
        {
            key.push(bytes[i]);
            i = i + 1;
        }
        assert(key@ =~= bytes@);
        let s = ControlSender { key_label: key, buffer: VecDeque::with_capacity(4), max_depth: 3, rate_hz };
        assert(s.queue() =~= Seq::<(Seq<char>, Seq<u8>)>::empty());
        s
    }

    /// Sign a JSON frame body: the body with its HMAC tag under this
    /// sender's key.
    pub fn sign(&self, body: String) -> (f: SignedFrame)
        ensures
            f.body@ == body@,
            f.tag@ == hmac_tag(vstd::utf8::encode_utf8(body@), self.key_spec()),
    {
        let tag = compute_hmac_tag(body.as_str().as_bytes(), self.key_label.as_slice());
        SignedFrame { body, tag }
    }

    /// Sign a JSON frame body and queue it for sending. When the queue
    /// already holds `MAX_DEPTH` frames, the oldest is dropped first.
    pub fn enqueue(&mut self, body: String)
        requires
            old(self).wf(),
        ensures
            final(self).wf(),
            final(self).key_spec() == old(self).key_spec(),
            final(self).rate_spec() == old(self).rate_spec(),
            final(self).queue() == enqueued(
                old(self).queue(),
                (body@, hmac_tag(vstd::utf8::encode_utf8(body@), old(self).key_spec())),
            ),
    {
        let signed = self.sign(body);
        let ghost q0 = self.buffer@;
        if self.buffer.len() >= self.max_depth {
            let _ = self.buffer.pop_front();
        }
        self.buffer.push_back(signed);
        proof {
            let v = |f: SignedFrame| (f.body@, f.tag@);
            if q0.len() >= MAX_DEPTH {
                assert(self.buffer@ =~= q0.subrange(1, q0.len() as int).push(signed));
                assert(self.buffer@.map_values(v) =~= q0.map_values(v).drop_first().push(v(signed)));
            } else {
                assert(self.buffer@.map_values(v) =~= q0.map_values(v).push(v(signed)));
            }
        }
    }

    /// Take the oldest waiting frame, if any.
    pub fn dequeue(&mut self) -> (f: Option<SignedFrame>)
        requires
            old(self).wf(),
        ensures
            final(self).wf(),
            final(self).key_spec() == old(self).key_spec(),
            final(self).rate_spec() == old(self).rate_spec(),
            old(self).queue().len() == 0 ==> f is None && final(self).queue() == old(self).queue(),
            old(self).queue().len() > 0 ==> (f matches Some(x) && (x.body@, x.tag@) == old(self).queue()[0]
                && final(self).queue() == old(self).queue().drop_first()),
    {
        let ghost q0 = self.buffer@;
        let r = self.buffer.pop_front();
        proof {
            let v = |f: SignedFrame| (f.body@, f.tag@);
            if q0.len() > 0 {
                assert(self.buffer@.map_values(v) =~= q0.map_values(v).drop_first());
            }
        }
        r
    }

    /// Current queue depth.
    pub fn depth(&self) -> (n: usize)
        ensures
            n == self.queue().len(),
    {
        self.buffer.len()
    }

    /// Rate limit in Hz.
    pub fn rate_hz(&self) -> (r: u32)
        ensures
            r == self.rate_spec(),
    {
        self.rate_hz
    }
}

/// The queue after adding `item`: appended, after dropping the oldest
/// when `MAX_DEPTH` items already wait.
pub open spec fn enqueued<T>(q: Seq<T>, item: T) -> Seq<T> {
    if q.len() >= MAX_DEPTH {
        q.drop_first().push(item)
    } else {
        q.push(item)
    }
}

/// Adding to a queue that holds at most `MAX_DEPTH` items keeps it within
/// `MAX_DEPTH`, puts the new item last, and keeps every waiting item but the
/// oldest (all of them when there was room), in order.
pub proof fn law_enqueue_bounded_fifo<T>(q: Seq<T>, item: T)
    requires
        q.len() <= MAX_DEPTH,
    ensures
        enqueued(q, item).len() <= MAX_DEPTH,
        enqueued(q, item).last() == item,
        q.len() < MAX_DEPTH ==> enqueued(q, item).drop_last() == q,
        q.len() == MAX_DEPTH ==> enqueued(q, item).drop_last() == q.drop_first(),
{
    assert(q.push(item).drop_last() =~= q);
    if q.len() > 0 {
        assert(q.drop_first().push(item).drop_last() =~= q.drop_first());
    }
}

} // verus!
