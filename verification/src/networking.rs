//! Framing of the packets the client sends over its stream connection: each
//! packet goes out behind its length, four bytes in little-endian order.

use vstd::prelude::*;
use crate::text::{append_decimal, decimal};

verus! {

/// The four bytes of `n`, least significant first.
pub open spec fn le_bytes(n: u32) -> Seq<u8> {
    seq![(n & 0xff) as u8, ((n >> 8) & 0xff) as u8, ((n >> 16) & 0xff) as u8, ((n >> 24) & 0xff) as u8]
}

/// The number whose bytes, least significant first, are `b`.
pub open spec fn from_le(b0: u8, b1: u8, b2: u8, b3: u8) -> u32 {
    (b0 as u32) | ((b1 as u32) << 8) | ((b2 as u32) << 16) | ((b3 as u32) << 24)
}

/// A packet as it goes over the stream: its length, then its bytes.
pub open spec fn framed(data: Seq<u8>) -> Seq<u8> {
    le_bytes(data.len() as u32) + data
}

/// The length a frame header announces.
pub fn frame_length(header: &[u8; 4]) -> (r: u32)
    ensures
        r == from_le(header@[0], header@[1], header@[2], header@[3]),
{
    let b0 = header[0];
    let b1 = header[1];
    let b2 = header[2];
    let b3 = header[3];
    (b0 as u32) | ((b1 as u32) << 8) | ((b2 as u32) << 16) | ((b3 as u32) << 24)
}

/// The packet behind its length.
pub fn frame(data: &[u8]) -> (r: Vec<u8>)
    requires
        data@.len() <= u32::MAX,
    ensures
        r@ == framed(data@),
{
    let n = data.len() as u32;
    let mut out: Vec<u8> = Vec::new();
    out.push((n & 0xff) as u8);
    out.push(((n >> 8) & 0xff) as u8);
    out.push(((n >> 16) & 0xff) as u8);
    out.push(((n >> 24) & 0xff) as u8);
    let m = data.len();
    let mut i: usize = 0;
    while i < m
        invariant
            m == data@.len(),
            n == m,
            0 <= i <= m,
            out@ =~= le_bytes(n) + data@.take(i as int),
        decreases m - i,
    {
        out.push(data[i]);
        i = i + 1;
    }
    proof {
        assert(data@.take(m as int) =~= data@);
    }
    out
}

/// Checks a serialized packet against the largest size the protocol
/// allows: the packet itself if it fits, else the error.
pub fn check_packet_size(data: Vec<u8>, max_size: usize) -> (r: Result<Vec<u8>, String>)
    ensures
        r is Ok <==> data@.len() <= max_size,
        r matches Ok(d) ==> d@ == data@,
        r matches Err(e) ==> e@ == too_large_text(data@.len(), max_size as nat),
{
    if data.len() > max_size {
        return Err(too_large_message(data.len(), max_size));
    }
    Ok(data)
}

/// The text of the error for a packet of `len` bytes where at most
/// `max_size` go.
pub open spec fn too_large_text(len: nat, max_size: nat) -> Seq<char> {
    "Packet is too large: "@ + decimal(len) + " > "@ + decimal(max_size)
}

fn too_large_message(len: usize, max_size: usize) -> (r: String)
    ensures
        r@ == too_large_text(len as nat, max_size as nat),
{
    let mut s = String::new();
    s.append("Packet is too large: ");
    append_decimal(&mut s, len as u64);
    s.append(" > ");
    append_decimal(&mut s, max_size as u64);
    proof {
        assert(s@ =~= too_large_text(len as nat, max_size as nat));
    }
    s
}

/// How a packet goes to the server.
#[derive(Debug, Clone, Copy, PartialEq, Eq, Structural)]
pub enum SendMode {
    /// As one datagram, as it is.
    Quick,
    /// Over the stream connection, behind its length.
    Safe,
}

/// The bytes that go out for a serialized packet: the packet itself as a
/// datagram, or framed for the stream; refused, with the error, if the
/// packet is larger than the protocol allows.
pub fn outgoing_bytes(data: Vec<u8>, max_size: usize, mode: SendMode) -> (r: Result<Vec<u8>, String>)
    requires
        max_size <= u32::MAX,
    ensures
        r is Ok <==> data@.len() <= max_size,
        r matches Ok(b) ==> b@ == match mode {
            SendMode::Quick => data@,
            SendMode::Safe => framed(data@),
        },
        r matches Err(e) ==> e@ == too_large_text(data@.len(), max_size as nat),
{
    match check_packet_size(data, max_size) {
        Ok(d) => match mode {
            SendMode::Quick => Ok(d),
            SendMode::Safe => Ok(frame(d.as_slice())),
        },
        Err(e) => Err(e),
    }
}

/// Reading the length of a frame gives back the length of the packet
/// framed, and the bytes after the header are the packet.
pub proof fn law_frame_roundtrip(data: Seq<u8>)
    requires
        data.len() <= u32::MAX,
    ensures
        ({
            let f = framed(data);
            &&& f.len() == data.len() + 4
            &&& from_le(f[0], f[1], f[2], f[3]) == data.len()
            &&& f.skip(4) == data
        }),
{
    let n = data.len() as u32;
    let f = framed(data);
    assert(f.skip(4) =~= data);
    assert(from_le((n & 0xff) as u8, ((n >> 8) & 0xff) as u8, ((n >> 16) & 0xff) as u8, ((n >> 24) & 0xff) as u8) == n) by (bit_vector);
}

/// The length goes out least significant byte first: its bytes are its
/// digits in base 256 from the lowest up, and a header is read back the same
/// way.
pub proof fn law_length_is_little_endian(n: u32, b0: u8, b1: u8, b2: u8, b3: u8)
    ensures
        le_bytes(n)[0] == n % 256,
        le_bytes(n)[1] == (n / 256) % 256,
        le_bytes(n)[2] == (n / 65536) % 256,
        le_bytes(n)[3] == n / 16777216,
        from_le(b0, b1, b2, b3) == b0 + 256 * b1 + 65536 * b2 + 16777216 * b3,
{
    assert((n & 0xff) as u8 == n % 256) by (bit_vector);
    assert(((n >> 8) & 0xff) as u8 == (n / 256) % 256) by (bit_vector);
    assert(((n >> 16) & 0xff) as u8 == (n / 65536) % 256) by (bit_vector);
    assert(((n >> 24) & 0xff) as u8 == n / 16777216) by (bit_vector);
    assert((b0 as u32) | ((b1 as u32) << 8) | ((b2 as u32) << 16) | ((b3 as u32) << 24)
        == b0 + 256 * b1 + 65536 * b2 + 16777216 * b3) by (bit_vector);
}

/// The identity of a conversation, an entity, a kind of handle or a
/// receiver.
pub type Id = u128;

/// What a message from the server asks of the client, with the ids it
/// names.
#[derive(Debug, Clone, Copy, PartialEq, Eq, Structural)]
pub enum ServerMessageKind {
    Ping,
    Unregister,
    AddClientHandle { entity: Id, handle: Id },
    RemoveClientHandle { entity: Id },
    ModMessage { entity: Id, receiver: Id },
    Other,
}

/// What the client does with a packet from the server.
#[derive(Debug, Clone, Copy, PartialEq, Eq, Structural)]
pub enum PacketAction {
    /// Hand the packet to the handler that awaited a reply in its
    /// conversation; that handler is used up.
    AnswerAwaited,
    /// Answer the ping.
    Pong,
    /// The server dropped the client: stop.
    Exit,
    /// Create, start and keep a handle of the registered kind for the entity.
    StartHandle { entity: Id, handle: Id },
    /// Tell the entity's handle that it is removed, and drop it.
    RemoveHandle { entity: Id },
    /// Hand the message to the receiver of the entity's handle.
    Deliver { entity: Id, receiver: Id },
    /// Nothing to do.
    Ignore,
}

/// The ids `s` holds, without `x`.
pub open spec fn without(s: Seq<Id>, x: Id) -> Seq<Id> {
    s.filter(|y: Id| y != x)
}

/// The pairs `s` holds whose entity is not `e`.
pub open spec fn without_entity(s: Seq<(Id, Id)>, e: Id) -> Seq<(Id, Id)> {
    s.filter(|p: (Id, Id)| p.0 != e)
}

/// The conversations that await a reply, the kinds of handle the mods
/// registered, the entities that have a handle, and the receivers of each
/// handle.
pub struct PacketRouter {
    awaiting: Vec<Id>,
    registered: Vec<Id>,
    handles: Vec<Id>,
    receivers: Vec<(Id, Id)>,
}

pub struct PacketRouterView {
    pub awaiting: Seq<Id>,
    pub registered: Seq<Id>,
    pub handles: Seq<Id>,
    pub receivers: Seq<(Id, Id)>,
}

impl View for PacketRouter {
    type V = PacketRouterView;

    closed spec fn view(&self) -> PacketRouterView {
        PacketRouterView {
            awaiting: self.awaiting@,
            registered: self.registered@,
            handles: self.handles@,
            receivers: self.receivers@,
        }
    }
}

/// Every receiver belongs to the handle of an entity that has one.
pub open spec fn router_wf(r: PacketRouterView) -> bool {
    forall|i: int| 0 <= i < r.receivers.len() ==> r.handles.contains(#[trigger] r.receivers[i].0)
}

/// Dropping an entity's handle and receivers, and then possibly giving it a
/// new handle, keeps every receiver with a handle.
proof fn lemma_drop_entity_wf(r: PacketRouterView, entity: Id, readd: bool)
    requires
        router_wf(r),
    ensures
        router_wf(PacketRouterView {
            handles: if readd { without(r.handles, entity).push(entity) } else { without(r.handles, entity) },
            receivers: without_entity(r.receivers, entity),
            ..r
        }),
{
    broadcast use vstd::seq_lib::group_filter_ensures;

    let hs = without(r.handles, entity);
    let nh = if readd { hs.push(entity) } else { hs };
    let rs = without_entity(r.receivers, entity);
    assert forall|i: int| 0 <= i < rs.len() implies r.receivers.contains(#[trigger] rs[i]) by {
        broadcast use Seq::lemma_filter_contains_rev;
        assert(rs.contains(rs[i]));
    }
    assert forall|i: int| 0 <= i < rs.len() implies nh.contains(#[trigger] rs[i].0) by {
        assert(r.receivers.contains(rs[i]));
        let k = choose|k: int| 0 <= k < r.receivers.len() && r.receivers[k] == rs[i];
        assert(r.handles.contains(r.receivers[k].0));
        let m = choose|m: int| 0 <= m < r.handles.len() && r.handles[m] == rs[i].0;
        assert(rs[i].0 != entity);
        assert(hs.contains(r.handles[m]));
        if readd {
            let q = choose|q: int| 0 <= q < hs.len() && hs[q] == rs[i].0;
            assert(hs.push(entity)[q] == rs[i].0);
        }
    }
}

/// Keeping only some receivers keeps every receiver with a handle.
proof fn lemma_fewer_receivers_wf(r: PacketRouterView, rs: Seq<(Id, Id)>)
    requires
        router_wf(r),
        forall|i: int| 0 <= i < rs.len() ==> r.receivers.contains(#[trigger] rs[i]),
    ensures
        router_wf(PacketRouterView { receivers: rs, ..r }),
{
    assert forall|i: int| 0 <= i < rs.len() implies r.handles.contains(#[trigger] rs[i].0) by {
        assert(r.receivers.contains(rs[i]));
        let k = choose|k: int| 0 <= k < r.receivers.len() && r.receivers[k] == rs[i];
        assert(r.handles.contains(r.receivers[k].0));
    }
}

/// Every element of a filtered sequence is in the sequence.
proof fn lemma_filtered_within<A>(s: Seq<A>, pred: spec_fn(A) -> bool)
    ensures
        forall|i: int| 0 <= i < s.filter(pred).len() ==> s.contains(#[trigger] s.filter(pred)[i]),
{
    broadcast use Seq::lemma_filter_contains_rev;

    assert forall|i: int| 0 <= i < s.filter(pred).len() implies s.contains(#[trigger] s.filter(pred)[i]) by {
        assert(s.filter(pred).contains(s.filter(pred)[i]));
    }
}

/// What routing a packet does to the router, and the action it asks for.
pub open spec fn routed(r: PacketRouterView, conv: Id, kind: ServerMessageKind) -> (PacketRouterView, PacketAction) {
    if r.awaiting.contains(conv) {
        (PacketRouterView { awaiting: without(r.awaiting, conv), ..r }, PacketAction::AnswerAwaited)
    } else {
        match kind {
            ServerMessageKind::Ping => (r, PacketAction::Pong),
            ServerMessageKind::Unregister => (r, PacketAction::Exit),
            ServerMessageKind::AddClientHandle { entity, handle } => if r.registered.contains(handle) {
                (
                    PacketRouterView {
                        handles: without(r.handles, entity).push(entity),
                        receivers: without_entity(r.receivers, entity),
                        ..r
                    },
                    PacketAction::StartHandle { entity, handle },
                )
            } else {
                (r, PacketAction::Ignore)
            },
            ServerMessageKind::RemoveClientHandle { entity } => if r.handles.contains(entity) {
                (
                    PacketRouterView {
                        handles: without(r.handles, entity),
                        receivers: without_entity(r.receivers, entity),
                        ..r
                    },
                    PacketAction::RemoveHandle { entity },
                )
            } else {
                (r, PacketAction::Ignore)
            },
            ServerMessageKind::ModMessage { entity, receiver } => if r.receivers.contains((entity, receiver)) {
                (r, PacketAction::Deliver { entity, receiver })
            } else {
                (r, PacketAction::Ignore)
            },
            ServerMessageKind::Other => (r, PacketAction::Ignore),
        }
    }
}

fn vec_contains(v: &Vec<Id>, x: Id) -> (r: bool)
    ensures
        r == v@.contains(x),
{
    let n = v.len();
    let mut i: usize = 0;
    while i < n
        invariant
            n == v@.len(),
            0 <= i <= n,
            forall|k: int| 0 <= k < i ==> v@[k] != x,
        decreases n - i,
    {
        if v[i] == x {
            proof {
                assert(v@[i as int] == x);
            }
            return true;
        }
        i = i + 1;
    }
    false
}

fn pairs_contain(v: &Vec<(Id, Id)>, x: (Id, Id)) -> (r: bool)
    ensures
        r == v@.contains(x),
{
    let n = v.len();
    let mut i: usize = 0;
    while i < n
        invariant
            n == v@.len(),
            0 <= i <= n,
            forall|k: int| 0 <= k < i ==> v@[k] != x,
        decreases n - i,
    {
        if v[i].0 == x.0 && v[i].1 == x.1 {
            proof {
                assert(v@[i as int] == x);
            }
            return true;
        }
        i = i + 1;
    }
    false
}

fn vec_without(v: &Vec<Id>, x: Id) -> (r: Vec<Id>)
    ensures
        r@ == without(v@, x),
{
    let n = v.len();
    let mut out: Vec<Id> = Vec::new();
    let mut i: usize = 0;
    while i < n
        invariant
            n == v@.len(),
            0 <= i <= n,
            out@ == without(v@.take(i as int), x),
        decreases n - i,
    {
        proof {
            reveal(Seq::filter);
            assert(v@.take(i + 1).drop_last() =~= v@.take(i as int));
        }
        if v[i] != x {
            out.push(v[i]);
        }
        i = i + 1;
    }
    proof {
        assert(v@.take(n as int) =~= v@);
    }
    out
}

fn pairs_without_entity(v: &Vec<(Id, Id)>, e: Id) -> (r: Vec<(Id, Id)>)
    ensures
        r@ == without_entity(v@, e),
{
    let n = v.len();
    let mut out: Vec<(Id, Id)> = Vec::new();
    let mut i: usize = 0;
    while i < n
        invariant
            n == v@.len(),
            0 <= i <= n,
            out@ == without_entity(v@.take(i as int), e),
        decreases n - i,
    {
        proof {
            reveal(Seq::filter);
            assert(v@.take(i + 1).drop_last() =~= v@.take(i as int));
        }
        if v[i].0 != e {
            out.push(v[i]);
        }
        i = i + 1;
    }
    proof {
        assert(v@.take(n as int) =~= v@);
    }
    out
}

impl PacketRouter {
    pub open spec fn wf(&self) -> bool {
        router_wf(self@)
    }

    pub fn new() -> (r: Self)
        ensures
            r.wf(),
            r@.awaiting == Seq::<Id>::empty(),
            r@.registered == Seq::<Id>::empty(),
            r@.handles == Seq::<Id>::empty(),
            r@.receivers == Seq::<(Id, Id)>::empty(),
    {
        PacketRouter { awaiting: Vec::new(), registered: Vec::new(), handles: Vec::new(), receivers: Vec::new() }
    }

    /// Notes that a reply in conversation `conv` is awaited.
    pub fn await_reply(&mut self, conv: Id)
        requires
            old(self).wf(),
        ensures
            final(self).wf(),
            final(self)@ == (PacketRouterView { awaiting: without(old(self)@.awaiting, conv).push(conv), ..old(self)@ }),
    {
        self.awaiting = vec_without(&self.awaiting, conv);
        self.awaiting.push(conv);
    }

    /// Notes that a mod can create handles of the kind `handle`.
    pub fn register_handle(&mut self, handle: Id)
        requires
            old(self).wf(),
        ensures
            final(self).wf(),
            final(self)@ == (PacketRouterView { registered: without(old(self)@.registered, handle).push(handle), ..old(self)@ }),
    {
        self.registered = vec_without(&self.registered, handle);
        self.registered.push(handle);
    }

    /// Notes that the handle of `entity` receives messages for `receiver`;
    /// refused if the entity has no handle.
    pub fn register_receiver(&mut self, entity: Id, receiver: Id) -> (r: bool)
        requires
            old(self).wf(),
        ensures
            final(self).wf(),
            r == old(self)@.handles.contains(entity),
            r ==> final(self)@ == (PacketRouterView {
                receivers: old(self)@.receivers.filter(|p: (Id, Id)| p != (entity, receiver)).push((entity, receiver)),
                ..old(self)@
            }),
            !r ==> final(self)@ == old(self)@,
    {
        if !vec_contains(&self.handles, entity) {
            return false;
        }
        let n = self.receivers.len();
        let mut out: Vec<(Id, Id)> = Vec::new();
        let mut i: usize = 0;
        while i < n
            invariant
                n == self.receivers@.len(),
                0 <= i <= n,
                out@ == self.receivers@.take(i as int).filter(|p: (Id, Id)| p != (entity, receiver)),
                self@ == old(self)@,
                router_wf(self@),
                self.handles@.contains(entity),
            decreases n - i,
        {
            proof {
                reveal(Seq::filter);
                assert(self.receivers@.take(i + 1).drop_last() =~= self.receivers@.take(i as int));
            }
            let p = self.receivers[i];
            if !(p.0 == entity && p.1 == receiver) {
                out.push(p);
            }
            i = i + 1;
        }
        proof {
            assert(self.receivers@.take(n as int) =~= self.receivers@);
            lemma_filtered_within(self.receivers@, |p: (Id, Id)| p != (entity, receiver));
            lemma_fewer_receivers_wf(self@, out@);
        }
        let ghost filtered = out@;
        out.push((entity, receiver));
        self.receivers = out;
        proof {
            assert forall|i: int| 0 <= i < self.receivers@.len() implies self.handles@.contains(#[trigger] self.receivers@[i].0) by {
                if i < filtered.len() {
                    assert(self.receivers@[i] == filtered[i]);
                }
            }
        }
        true
    }

    /// Forgets that the handle of `entity` receives messages for `receiver`.
    pub fn unregister_receiver(&mut self, entity: Id, receiver: Id)
        requires
            old(self).wf(),
        ensures
            final(self).wf(),
            final(self)@ == (PacketRouterView {
                receivers: old(self)@.receivers.filter(|p: (Id, Id)| p != (entity, receiver)),
                ..old(self)@
            }),
    {
        let n = self.receivers.len();
        let mut out: Vec<(Id, Id)> = Vec::new();
        let mut i: usize = 0;
        while i < n
            invariant
                n == self.receivers@.len(),
                0 <= i <= n,
                out@ == self.receivers@.take(i as int).filter(|p: (Id, Id)| p != (entity, receiver)),
            decreases n - i,
        {
            proof {
                reveal(Seq::filter);
                assert(self.receivers@.take(i + 1).drop_last() =~= self.receivers@.take(i as int));
            }
            let p = self.receivers[i];
            if !(p.0 == entity && p.1 == receiver) {
                out.push(p);
            }
            i = i + 1;
        }
        proof {
            assert(self.receivers@.take(n as int) =~= self.receivers@);
            lemma_filtered_within(self.receivers@, |p: (Id, Id)| p != (entity, receiver));
            lemma_fewer_receivers_wf(self@, out@);
        }
        self.receivers = out;
    }

    /// Decides what to do with a packet of conversation `conv` carrying a
    /// message of the given kind: a packet that answers an awaited
    /// conversation goes to its handler; otherwise the message decides.
    pub fn route(&mut self, conv: Id, kind: ServerMessageKind) -> (r: PacketAction)
        requires
            old(self).wf(),
        ensures
            final(self).wf(),
            (final(self)@, r) == routed(old(self)@, conv, kind),
    {
        if vec_contains(&self.awaiting, conv) {
            self.awaiting = vec_without(&self.awaiting, conv);
            return PacketAction::AnswerAwaited;
        }
        match kind {
            ServerMessageKind::Ping => PacketAction::Pong,
            ServerMessageKind::Unregister => PacketAction::Exit,
            ServerMessageKind::AddClientHandle { entity, handle } => {
                if vec_contains(&self.registered, handle) {
                    proof {
                        lemma_drop_entity_wf(self@, entity, true);
                    }
                    let mut hs = vec_without(&self.handles, entity);
                    hs.push(entity);
                    self.handles = hs;
                    self.receivers = pairs_without_entity(&self.receivers, entity);
                    PacketAction::StartHandle { entity, handle }
                } else {
                    PacketAction::Ignore
                }
            },
            ServerMessageKind::RemoveClientHandle { entity } => {
                if vec_contains(&self.handles, entity) {
                    proof {
                        lemma_drop_entity_wf(self@, entity, false);
                    }
                    self.handles = vec_without(&self.handles, entity);
                    self.receivers = pairs_without_entity(&self.receivers, entity);
                    PacketAction::RemoveHandle { entity }
                } else {
                    PacketAction::Ignore
                }
            },
            ServerMessageKind::ModMessage { entity, receiver } => {
                if pairs_contain(&self.receivers, (entity, receiver)) {
                    PacketAction::Deliver { entity, receiver }
                } else {
                    PacketAction::Ignore
                }
            },
            ServerMessageKind::Other => PacketAction::Ignore,
        }
    }
}

/// A reply is handed to its awaiting handler once: a second packet of the
/// same conversation is routed by its message.
pub proof fn law_awaited_reply_answered_once(r: PacketRouterView, conv: Id, kind: ServerMessageKind)
    requires
        r.awaiting.contains(conv),
    ensures
        routed(r, conv, kind).1 == PacketAction::AnswerAwaited,
        !routed(r, conv, kind).0.awaiting.contains(conv),
{
    broadcast use vstd::seq_lib::group_filter_ensures;

    let a = without(r.awaiting, conv);
    if a.contains(conv) {
        let i = choose|i: int| 0 <= i < a.len() && a[i] == conv;
        assert(a[i] != conv);
    }
}

proof fn lemma_without_entity_drops(s: Seq<(Id, Id)>, e: Id, x: Id)
    ensures
        !without_entity(s, e).contains((e, x)),
{
    broadcast use vstd::seq_lib::group_filter_ensures;

    let w = without_entity(s, e);
    if w.contains((e, x)) {
        let i = choose|i: int| 0 <= i < w.len() && w[i] == (e, x);
        assert(w[i].0 != e);
    }
}

/// Messages reach only receivers that were registered: a packet is handed
/// to a receiver only if the router holds that receiver for the entity.
pub proof fn law_delivery_only_to_registered_receivers(r: PacketRouterView, conv: Id, kind: ServerMessageKind)
    ensures
        routed(r, conv, kind).1 matches PacketAction::Deliver { entity, receiver } ==>
            r.receivers.contains((entity, receiver)) && kind == (ServerMessageKind::ModMessage { entity, receiver }),
{
}

/// Once an entity's handle is removed, or replaced by a new one, none of the
/// receivers it had gets a message any more: a later message for the entity
/// is ignored unless it answers an awaited reply.
pub proof fn law_handle_change_drops_receivers(r: PacketRouterView, c1: Id, change: ServerMessageKind, c2: Id, receiver: Id)
    requires
        !r.awaiting.contains(c1),
        change is RemoveClientHandle || change is AddClientHandle,
    ensures
        ({
            let entity = match change {
                ServerMessageKind::RemoveClientHandle { entity } => entity,
                ServerMessageKind::AddClientHandle { entity, .. } => entity,
                _ => 0,
            };
            let r1 = routed(r, c1, change).0;
            let act = routed(r, c1, change).1;
            (act is RemoveHandle || act is StartHandle) && !r1.awaiting.contains(c2) ==>
                routed(r1, c2, ServerMessageKind::ModMessage { entity, receiver }).1 == PacketAction::Ignore
        }),
{
    match change {
        ServerMessageKind::RemoveClientHandle { entity } => {
            lemma_without_entity_drops(r.receivers, entity, receiver);
        },
        ServerMessageKind::AddClientHandle { entity, .. } => {
            lemma_without_entity_drops(r.receivers, entity, receiver);
        },
        _ => {},
    }
}

} // verus!
