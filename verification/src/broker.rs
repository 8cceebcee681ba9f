//! The pub/sub broker: it registers clients, shards and infrastructure
//! services, keeps topic subscriptions, fans out publications and relays
//! inputs and private messages. `Broker::handle_message` decides, for one
//! received frame, how the registries change and what is sent.
use vstd::prelude::*;
use std::collections::HashMap;
use vstd::std_specs::iter::IteratorSpec;
use crate::wire::{le_u32, read_u32_le, read_u16_le, push_u32_le, push_u16_le, push_bytes, slice_to_vec, u32_le, u16_le, le_u16};
use crate::text::{field_name, read_name_field, name_field, lemma_name_field_roundtrip};
use vstd::utf8::encode_utf8;
use crate::names::NameTable;
use crate::protocol::{
    ClientInit, TAG_ADMIN_CONNECT, TAG_ADMIN_ROUTE_SEND, parse_route, routed_frame, read_route,
    build_routed, admin_connect_frame, route_frame, lemma_route_roundtrip,
};
use crate::geometry::{f32_le, f32_bits_le};

verus! {

broadcast use vstd::std_specs::hash::group_hash_axioms;

/// A connection and the stream on it through which to send.
#[derive(Clone, Copy, Debug, PartialEq, Eq, Structural)]
pub struct Link {
    pub connection: u64,
    pub stream: u64,
}

/// How to reach a client, and the shard that simulates it if one was found.
#[derive(Clone, Copy, Debug, PartialEq, Eq, Structural)]
pub struct ClientNetworkInfo {
    pub broker_to_client: Link,
    pub broker_to_server: Option<Link>,
}

/// Zone (as `f32` bit patterns) and address of a registered shard server.
#[derive(Clone, Copy, Debug, PartialEq, Eq, Structural)]
pub struct DGSNetworkInfo {
    pub min_x: u32,
    pub max_x: u32,
    pub min_y: u32,
    pub max_y: u32,
    pub connection_dgs: Option<u64>,
    pub stream_dgs: Option<u64>,
}

/// The clients, under the ids the broker gave them.
pub struct ClientRegistry {
    pub next_id: u32,
    pub clients: HashMap<u32, ClientNetworkInfo>,
}

/// The shard servers, by shard id.
pub struct ShardMap {
    pub shard_connections: HashMap<u32, DGSNetworkInfo>,
}

/// The infrastructure services, by the name they announced.
pub struct AdminRegistry {
    pub admins: NameTable<Link>,
}

/// The subscribers of each topic.
pub struct SubscriptionMap {
    pub subscriptions: NameTable<Vec<u32>>,
}

/// A frame to send on a connection and stream.
#[derive(Debug, PartialEq, Eq)]
pub struct Outgoing {
    pub connection: u64,
    pub stream: u64,
    pub data: Vec<u8>,
}

/// What becomes of one received frame.
#[derive(Debug, PartialEq, Eq)]
pub enum Handled {
    /// Go on with the next event after sending these frames.
    Sent(Vec<Outgoing>),
    /// Stop reading events until the next tick.
    Stop,
    /// A client asks to enter the world; the body is a serialised `ClientInit`.
    ClientInit(Vec<u8>),
}

/// All the state of the broker.
pub struct Broker {
    pub clients: ClientRegistry,
    pub subs: SubscriptionMap,
    pub shard_map: ShardMap,
    pub admin_registry: AdminRegistry,
}

/// The view of an outgoing frame.
pub open spec fn out_view(o: Outgoing) -> (u64, u64, Seq<u8>) {
    (o.connection, o.stream, o.data@)
}

/// The shard server entry that a `0x00` body (shard id, then zone as
/// min x, min y, max x, max y) registers for the sender.
pub open spec fn shard_entry(rest: Seq<u8>, connection: u64, stream: u64) -> DGSNetworkInfo {
    DGSNetworkInfo {
        min_x: le_u32(rest, 4) as u32,
        max_x: le_u32(rest, 12) as u32,
        min_y: le_u32(rest, 8) as u32,
        max_y: le_u32(rest, 16) as u32,
        connection_dgs: Some(connection),
        stream_dgs: Some(stream),
    }
}

/// The subscriber list after `id` subscribes.
pub open spec fn with_subscriber(list: Seq<u32>, id: u32) -> Seq<u32> {
    if list.contains(id) {
        list
    } else {
        list.push(id)
    }
}

/// The subscriber list after `id` unsubscribes.
pub open spec fn without_subscriber(list: Seq<u32>, id: u32) -> Seq<u32> {
    list.filter(other_than(id))
}

/// The predicate "is not `id`".
pub open spec fn other_than(id: u32) -> spec_fn(u32) -> bool {
    |x: u32| x != id
}

/// The subscriber lists as sequences.
pub open spec fn subs_view(m: Map<Seq<char>, Vec<u32>>) -> Map<Seq<char>, Seq<u32>> {
    m.map_values(|v: Vec<u32>| v@)
}

/// The frame that relays a client's input to its shard: tag `0x05`,
/// client id, sixteen input bytes.
pub open spec fn input_frame(client_id: u32, input: Seq<u8>) -> Seq<u8> {
    seq![0x05u8] + u32_le(client_id) + input
}

/// The zone of the shard server holds the point (`f32` bit patterns).
pub open spec fn zone_holds(d: DGSNetworkInfo, x: u32, y: u32) -> bool {
    f32_le(d.min_x, x) && f32_le(x, d.max_x) && f32_le(d.min_y, y) && f32_le(y, d.max_y)
}

/// The shard server can take the client: its zone holds the point and its
/// address is known.
pub open spec fn can_host(d: DGSNetworkInfo, x: u32, y: u32) -> bool {
    zone_holds(d, x, y) && d.connection_dgs.is_some() && d.stream_dgs.is_some()
}

/// The frame that tells a client its id: tag `0x06`, id.
pub open spec fn client_id_frame(client_id: u32) -> Seq<u8> {
    seq![0x06u8] + u32_le(client_id)
}

/// The state of the broker as mathematical maps.
pub struct BrokerView {
    pub next_id: u32,
    pub clients: Map<u32, ClientNetworkInfo>,
    pub shards: Map<u32, DGSNetworkInfo>,
    pub subs: Map<Seq<char>, Seq<u32>>,
    pub admins: Map<Seq<char>, Link>,
}

/// What becomes of a frame, as values.
pub enum HandledView {
    Sent(Seq<(u64, u64, Seq<u8>)>),
    Stop,
    ClientInit(Seq<u8>),
}

/// The frames of a publication: the broadcast frame to each subscriber, in
/// list order, that is a registered client, on the client's connection and
/// the stream the publication came on.
pub open spec fn publish_sends(
    subscribers: Seq<u32>,
    clients: Map<u32, ClientNetworkInfo>,
    stream: u64,
    frame: Seq<u8>,
) -> Seq<(u64, u64, Seq<u8>)>
    decreases subscribers.len(),
{
    if subscribers.len() == 0 {
        seq![]
    } else {
        let before = publish_sends(subscribers.drop_last(), clients, stream, frame);
        let id = subscribers.last();
        if clients.contains_key(id) {
            before.push((clients[id].broker_to_client.connection, stream, frame))
        } else {
            before
        }
    }
}

/// How one received frame changes the broker and what it sends.
/// The body `rest` is the frame without its tag.
pub open spec fn spec_handle(v: BrokerView, connection: u64, stream: u64, data: Seq<u8>) -> (
    BrokerView,
    HandledView,
) {
    let nothing = HandledView::Sent(seq![]);
    if data.len() == 0 {
        (v, nothing)
    } else {
        let tag = data[0];
        let rest = data.drop_first();
        if tag == 0x00 {
            // a shard server registers its zone
            if rest.len() < 20 {
                (v, HandledView::Stop)
            } else {
                (
                    BrokerView {
                        shards: v.shards.insert(
                            le_u32(rest, 0) as u32,
                            shard_entry(rest, connection, stream),
                        ),
                        ..v
                    },
                    nothing,
                )
            }
        } else if tag == 0x01 {
            // a client subscribes to a topic
            if rest.len() < 36 {
                (v, nothing)
            } else {
                let id = le_u32(rest, 0) as u32;
                let topic = field_name(rest.subrange(4, 36));
                let list = if v.subs.contains_key(topic) {
                    v.subs[topic]
                } else {
                    seq![]
                };
                (BrokerView { subs: v.subs.insert(topic, with_subscriber(list, id)), ..v }, nothing)
            }
        } else if tag == 0x02 {
            // a client unsubscribes from a topic
            if rest.len() < 36 {
                (v, nothing)
            } else {
                let id = le_u32(rest, 0) as u32;
                let topic = field_name(rest.subrange(4, 36));
                if v.subs.contains_key(topic) {
                    (
                        BrokerView {
                            subs: v.subs.insert(topic, without_subscriber(v.subs[topic], id)),
                            ..v
                        },
                        nothing,
                    )
                } else {
                    (v, nothing)
                }
            }
        } else if tag == 0x03 {
            // a publication on a topic
            if rest.len() < 34 || rest.len() < 34 + le_u16(rest, 32) {
                (v, nothing)
            } else {
                let topic = field_name(rest.subrange(0, 32));
                let len = le_u16(rest, 32);
                let frame = seq![0x04u8] + u16_le(len as u16) + rest.subrange(34, 34 + len);
                if v.subs.contains_key(topic) {
                    (v, HandledView::Sent(publish_sends(v.subs[topic], v.clients, stream, frame)))
                } else {
                    (v, nothing)
                }
            }
        } else if tag == 0x05 {
            // a client's input, relayed to its shard
            if rest.len() < 20 {
                (v, nothing)
            } else {
                let id = le_u32(rest, 0) as u32;
                if v.clients.contains_key(id) && v.clients[id].broker_to_server.is_some() {
                    let l = v.clients[id].broker_to_server.unwrap();
                    (
                        v,
                        HandledView::Sent(
                            seq![(l.connection, l.stream, input_frame(id, rest.subrange(4, 20)))],
                        ),
                    )
                } else {
                    (v, nothing)
                }
            }
        } else if tag == 0x07 {
            (v, HandledView::ClientInit(rest))
        } else if tag == TAG_ADMIN_CONNECT {
            // an infrastructure service announces its name
            if rest.len() < 32 {
                (v, nothing)
            } else {
                (
                    BrokerView {
                        admins: v.admins.insert(
                            field_name(rest.subrange(0, 32)),
                            Link { connection, stream },
                        ),
                        ..v
                    },
                    nothing,
                )
            }
        } else if tag == TAG_ADMIN_ROUTE_SEND {
            // a private message to an infrastructure service
            match parse_route(rest) {
                None => (v, nothing),
                Some((target, payload)) => if v.admins.contains_key(target) {
                    let l = v.admins[target];
                    (v, HandledView::Sent(seq![(l.connection, l.stream, routed_frame(payload))]))
                } else {
                    (v, nothing)
                },
            }
        } else {
            (v, nothing)
        }
    }
}

impl Broker {
    pub open spec fn view(&self) -> BrokerView {
        BrokerView {
            next_id: self.clients.next_id,
            clients: self.clients.clients@,
            shards: self.shard_map.shard_connections@,
            subs: subs_view(self.subs.subscriptions@),
            admins: self.admin_registry.admins@,
        }
    }

    /// The registries hold no two entries under one name.
    pub open spec fn wf(&self) -> bool {
        self.subs.subscriptions.wf() && self.admin_registry.admins.wf()
    }

    /// An empty broker.
    pub fn new() -> (b: Broker)
        ensures
            b.wf(),
            b.clients.next_id == 0,
            b.clients.clients@ == Map::<u32, ClientNetworkInfo>::empty(),
            b.shard_map.shard_connections@ == Map::<u32, DGSNetworkInfo>::empty(),
            b.subs.subscriptions@ == Map::<Seq<char>, Vec<u32>>::empty(),
            b.admin_registry.admins@ == Map::<Seq<char>, Link>::empty(),
    {
        Broker {
            clients: ClientRegistry { next_id: 0, clients: HashMap::new() },
            subs: SubscriptionMap { subscriptions: NameTable::new() },
            shard_map: ShardMap { shard_connections: HashMap::new() },
            admin_registry: AdminRegistry { admins: NameTable::new() },
        }
    }
}


/// The view of a `Handled`.
pub open spec fn handled_view(h: Handled) -> HandledView {
    match h {
        Handled::Sent(v) => HandledView::Sent(v@.map_values(|o: Outgoing| out_view(o))),
        Handled::Stop => HandledView::Stop,
        Handled::ClientInit(b) => HandledView::ClientInit(b@),
    }
}

/// The outgoing frames as values.
pub open spec fn outs_view(v: Seq<Outgoing>) -> Seq<(u64, u64, Seq<u8>)> {
    v.map_values(|o: Outgoing| out_view(o))
}

fn no_sends() -> (r: Vec<Outgoing>)
    ensures
        outs_view(r@) == Seq::<(u64, u64, Seq<u8>)>::empty(),
{
    let r: Vec<Outgoing> = Vec::new();
    assert(outs_view(r@) =~= Seq::<(u64, u64, Seq<u8>)>::empty());
    r
}

fn one_send(connection: u64, stream: u64, data: Vec<u8>) -> (r: Vec<Outgoing>)
    ensures
        outs_view(r@) == seq![(connection, stream, data@)],
{
    let mut r: Vec<Outgoing> = Vec::new();
    r.push(Outgoing { connection, stream, data });
    assert(outs_view(r@) =~= seq![(connection, stream, data@)]);
    r
}

impl Broker {
    /// Decides what one received frame does: how the registries change and
    /// which frames are sent, as `spec_handle` states.
    pub fn handle_message(&mut self, connection: u64, stream: u64, data: &[u8]) -> (r: Handled)
        requires
            old(self).wf(),
        ensures
            final(self).wf(),
            (final(self)@, handled_view(r)) == spec_handle(old(self)@, connection, stream, data@),
    {
        let ghost v = self@;
        if data.len() == 0 {
            return Handled::Sent(no_sends());
        }
        let tag = data[0];
        let rest = slice_to_vec(data, 1, data.len());
        assert(rest@ =~= data@.drop_first());
        let rest = rest.as_slice();
        if tag == 0x00 {
            if rest.len() < 20 {
                return Handled::Stop;
            }
            let shard_id = read_u32_le(rest, 0);
            let min_x = read_u32_le(rest, 4);
            let min_y = read_u32_le(rest, 8);
            let max_x = read_u32_le(rest, 12);
            let max_y = read_u32_le(rest, 16);
            self.shard_map.shard_connections.insert(
                shard_id,
                DGSNetworkInfo {
                    min_x,
                    max_x,
                    min_y,
                    max_y,
                    connection_dgs: Some(connection),
                    stream_dgs: Some(stream),
                },
            );
            return Handled::Sent(no_sends());
        } else if tag == 0x01 {
            if rest.len() < 36 {
                return Handled::Sent(no_sends());
            }
            let client_id = read_u32_le(rest, 0);
            let topic = read_name_field(rest, 4);
            assert(rest@.subrange(4, 4 + 32int) =~= rest@.subrange(4, 36));
            let mut subscribers = match self.subs.subscriptions.take(topic.as_str()) {
                Some(list) => list,
                None => Vec::new(),
            };
            if !contains_id(&subscribers, client_id) {
                subscribers.push(client_id);
            }
            self.subs.subscriptions.insert(topic, subscribers);
            proof {
                assert(subs_view(self.subs.subscriptions@) =~= spec_handle(v, connection, stream, data@).0.subs);
            }
            return Handled::Sent(no_sends());
        } else if tag == 0x02 {
            if rest.len() < 36 {
                return Handled::Sent(no_sends());
            }
            let client_id = read_u32_le(rest, 0);
            let topic = read_name_field(rest, 4);
            assert(rest@.subrange(4, 4 + 32int) =~= rest@.subrange(4, 36));
            match self.subs.subscriptions.take(topic.as_str()) {
                Some(list) => {
                    let kept = remove_id(&list, client_id);
                    self.subs.subscriptions.insert(topic, kept);
                    proof {
                        assert(subs_view(self.subs.subscriptions@) =~= spec_handle(v, connection, stream, data@).0.subs);
                    }
                },
                None => {
                    proof {
                        assert(self.subs.subscriptions@ =~= old(self).subs.subscriptions@);
                    }
                },
            }
            return Handled::Sent(no_sends());
        } else if tag == 0x03 {
            if rest.len() < 34 {
                return Handled::Sent(no_sends());
            }
            let topic = read_name_field(rest, 0);
            assert(rest@.subrange(0, 0 + 32int) =~= rest@.subrange(0, 32));
            let payload_len = read_u16_le(rest, 32) as usize;
            if rest.len() < 34 + payload_len {
                return Handled::Sent(no_sends());
            }
            let mut broadcast: Vec<u8> = Vec::new();
            broadcast.push(0x04u8);
            push_u16_le(&mut broadcast, payload_len as u16);
            let payload = slice_to_vec(rest, 34, 34 + payload_len);
            push_bytes(&mut broadcast, payload.as_slice());
            match self.subs.subscriptions.get(topic.as_str()) {
                Some(subscribers) => {
                    let sends = self.publish(subscribers, stream, &broadcast);
                    return Handled::Sent(sends);
                },
                None => {
                    return Handled::Sent(no_sends());
                },
            }
        } else if tag == 0x05 {
            if rest.len() < 20 {
                return Handled::Sent(no_sends());
            }
            let client_id = read_u32_le(rest, 0);
            match self.clients.clients.get(&client_id) {
                Some(info) => match info.broker_to_server {
                    Some(l) => {
                        let mut msg: Vec<u8> = Vec::new();
                        msg.push(0x05u8);
                        push_u32_le(&mut msg, client_id);
                        let input = slice_to_vec(rest, 4, 20);
                        push_bytes(&mut msg, input.as_slice());
                        assert(msg@ =~= input_frame(client_id, rest@.subrange(4, 20)));
                        return Handled::Sent(one_send(l.connection, l.stream, msg));
                    },
                    None => {
                        return Handled::Sent(no_sends());
                    },
                },
                None => {
                    return Handled::Sent(no_sends());
                },
            }
        } else if tag == 0x07 {
            let body = slice_to_vec(rest, 0, rest.len());
            assert(body@ =~= rest@);
            return Handled::ClientInit(body);
        } else if tag == TAG_ADMIN_CONNECT {
            if rest.len() < 32 {
                return Handled::Sent(no_sends());
            }
            let admin_name = read_name_field(rest, 0);
            assert(rest@.subrange(0, 0 + 32int) =~= rest@.subrange(0, 32));
            self.admin_registry.admins.insert(admin_name, Link { connection, stream });
            return Handled::Sent(no_sends());
        } else if tag == TAG_ADMIN_ROUTE_SEND {
            match read_route(rest) {
                None => {
                    return Handled::Sent(no_sends());
                },
                Some((target_name, payload)) => match self.admin_registry.admins.get(target_name.as_str()) {
                    Some(target_info) => {
                        let msg = build_routed(payload.as_slice());
                        return Handled::Sent(one_send(target_info.connection, target_info.stream, msg));
                    },
                    None => {
                        return Handled::Sent(no_sends());
                    },
                },
            }
        } else {
            return Handled::Sent(no_sends());
        }
    }

    /// The broadcast frames of a publication to `subscribers`.
    fn publish(&self, subscribers: &Vec<u32>, stream: u64, frame: &Vec<u8>) -> (r: Vec<Outgoing>)
        ensures
            outs_view(r@) == publish_sends(subscribers@, self.clients.clients@, stream, frame@),
    {
        let mut out: Vec<Outgoing> = Vec::new();
        let mut i: usize = 0;
        while i < subscribers.len()
            invariant
                i <= subscribers@.len(),
                outs_view(out@) == publish_sends(subscribers@.subrange(0, i as int), self.clients.clients@, stream, frame@),
            decreases subscribers@.len() - i,
        {
            let client_id = subscribers[i];
            proof {
                assert(subscribers@.subrange(0, i + 1).drop_last() =~= subscribers@.subrange(0, i as int));
            }
            match self.clients.clients.get(&client_id) {
                Some(info) => {
                    let ghost before = out@;
                    out.push(Outgoing { connection: info.broker_to_client.connection, stream, data: frame.clone() });
                    assert(outs_view(out@) =~= outs_view(before).push((info.broker_to_client.connection, stream, frame@)));
                },
                None => {},
            }
            i = i + 1;
        }
        assert(subscribers@.subrange(0, subscribers@.len() as int) =~= subscribers@);
        out
    }
}

/// Whether `id` is in the list.
fn contains_id(list: &Vec<u32>, id: u32) -> (r: bool)
    ensures
        r == list@.contains(id),
{
    let mut i: usize = 0;
    while i < list.len()
        invariant
            i <= list@.len(),
            forall|k: int| 0 <= k < i ==> list@[k] != id,
        decreases list@.len() - i,
    {
        if list[i] == id {
            return true;
        }
        i = i + 1;
    }
    false
}

/// The list without `id`, order kept.
fn remove_id(list: &Vec<u32>, id: u32) -> (r: Vec<u32>)
    ensures
        r@ == without_subscriber(list@, id),
{
    let ghost pred = other_than(id);
    let mut out: Vec<u32> = Vec::new();
    let mut i: usize = 0;
    while i < list.len()
        invariant
            i <= list@.len(),
            pred == other_than(id),
            out@ == list@.subrange(0, i as int).filter(pred),
        decreases list@.len() - i,
    {
        proof {
            reveal_with_fuel(Seq::<_>::filter, 1);
            assert(list@.subrange(0, i + 1).drop_last() =~= list@.subrange(0, i as int));
        }
        if list[i] != id {
            out.push(list[i]);
        }
        i = i + 1;
    }
    assert(list@.subrange(0, list@.len() as int) =~= list@);
    out
}

/// The link of a shard server whose address is known.
pub open spec fn link_of(d: DGSNetworkInfo) -> Link {
    Link { connection: d.connection_dgs.unwrap(), stream: d.stream_dgs.unwrap() }
}

/// `host` is a shard server of `shards` that can take a client at the
/// point, or `None` when none can.
pub open spec fn host_choice(shards: Map<u32, DGSNetworkInfo>, x: u32, y: u32, host: Option<Link>) -> bool {
    match host {
        Some(l) => exists|sid: u32|
            #[trigger] shards.contains_key(sid) && can_host(shards[sid], x, y) && l == link_of(shards[sid]),
        None => forall|sid: u32| #[trigger] shards.contains_key(sid) ==> !can_host(shards[sid], x, y),
    }
}

/// The broker after it admits a client reached over `client`, hosted by
/// `host`: the client gets the next id, which then moves on by one.
pub open spec fn after_register(v: BrokerView, client: Link, host: Option<Link>) -> BrokerView {
    BrokerView {
        next_id: (v.next_id + 1) as u32,
        clients: v.clients.insert(
            v.next_id,
            ClientNetworkInfo { broker_to_client: client, broker_to_server: host },
        ),
        ..v
    }
}

/// The broker after it admits, in order, the clients of `joins`, each
/// given by its own link and its host.
pub open spec fn after_registers(v: BrokerView, joins: Seq<(Link, Option<Link>)>) -> BrokerView
    decreases joins.len(),
{
    if joins.len() == 0 {
        v
    } else {
        let prev = after_registers(v, joins.drop_last());
        after_register(prev, joins.last().0, joins.last().1)
    }
}

impl Broker {
    /// Finds a shard server that can take a client at the point.
    fn find_host(&self, x: u32, y: u32) -> (r: Option<Link>)
        ensures
            host_choice(self.shard_map.shard_connections@, x, y, r),
    {
        let ghost m = self.shard_map.shard_connections@;
        for (shard_id, dgs) in it: self.shard_map.shard_connections.iter()
            invariant
                m == self.shard_map.shard_connections@,
                it.seq() == self.shard_map.shard_connections.iter().remaining(),
                forall|i: int| 0 <= i < it.index() ==> !can_host(*it.seq()[i].1, x, y),
        {
            let inside = f32_bits_le(dgs.min_x, x) && f32_bits_le(x, dgs.max_x) && f32_bits_le(dgs.min_y, y)
                && f32_bits_le(y, dgs.max_y);
            if inside {
                match (dgs.connection_dgs, dgs.stream_dgs) {
                    (Some(c), Some(st)) => {
                        let sid = *shard_id;
                        assert(m.contains_key(sid) && m[sid] == *dgs);
                        return Some(Link { connection: c, stream: st });
                    },
                    _ => {},
                }
            }
        }
        proof {
            let seq = self.shard_map.shard_connections.iter().remaining();
            assert forall|sid: u32| #[trigger] m.contains_key(sid) implies !can_host(m[sid], x, y) by {
                assert(seq.contains((&sid, &m[sid])));
                let k = choose|k: int| 0 <= k < seq.len() && seq[k] == (&sid, &m[sid]);
                assert(!can_host(*seq[k].1, x, y));
            }
        }
        None
    }

    /// Admits a client that asked to enter the world at the position of
    /// `init`: it gets the next id, is registered with a shard server whose
    /// zone holds the position (if any), and is told its id. The second
    /// result is the shard server and the `ClientInit`, carrying the new id,
    /// to relay to it.
    pub fn register_client(&mut self, connection: u64, stream: u64, init: ClientInit) -> (r: (
        Vec<Outgoing>,
        Option<(Link, ClientInit)>,
    ))
        requires
            old(self).wf(),
            old(self).clients.next_id < u32::MAX,
        ensures
            final(self).wf(),
            ({
                let v = old(self)@;
                let id = v.next_id;
                let host = match r.1 {
                    Some((l, _)) => Some(l),
                    None => None,
                };
                &&& host_choice(v.shards, init.pos_x, init.pos_y, host)
                &&& final(self)@ == after_register(v, Link { connection, stream }, host)
                &&& outs_view(r.0@) == seq![(connection, stream, client_id_frame(id))]
                &&& r.1 matches Some((_, i)) ==> i == ClientInit {
                    client_id: id,
                    pos_x: init.pos_x,
                    pos_y: init.pos_y,
                }
            }),
    {
        let client_id = self.clients.next_id;
        self.clients.next_id = self.clients.next_id + 1;
        let host = self.find_host(init.pos_x, init.pos_y);
        self.clients.clients.insert(
            client_id,
            ClientNetworkInfo { broker_to_client: Link { connection, stream }, broker_to_server: host },
        );
        let mut response: Vec<u8> = Vec::new();
        response.push(0x06u8);
        push_u32_le(&mut response, client_id);
        assert(response@ =~= client_id_frame(client_id));
        let sends = one_send(connection, stream, response);
        let relay = match host {
            Some(l) => Some((l, ClientInit { client_id, pos_x: init.pos_x, pos_y: init.pos_y })),
            None => None,
        };
        (sends, relay)
    }
}

/// A name that the 32-byte name field carries unchanged: at most 32 bytes
/// of UTF-8, no NUL at either end.
pub open spec fn fits_name_field(name: Seq<char>) -> bool {
    encode_utf8(name).len() <= 32 && (name.len() == 0 || (name[0] != '\0' && name.last() != '\0'))
}

/// The subscription frame of a client to a topic, as the spatial service
/// writes it: tag `0x01`, client id, topic field.
pub open spec fn subscribe_frame(client_id: u32, topic: Seq<char>) -> Seq<u8> {
    seq![0x01u8] + u32_le(client_id) + name_field(topic)
}

/// The unsubscription frame: tag `0x02`, client id, topic field.
pub open spec fn unsubscribe_frame(client_id: u32, topic: Seq<char>) -> Seq<u8> {
    seq![0x02u8] + u32_le(client_id) + name_field(topic)
}

/// A service that announced a name receives, through the broker, every
/// payload of at most 65535 bytes that another service routes to that name.
/// Both sides cut the name to the same 32-byte field, so this holds of
/// every name.
pub proof fn lemma_announce_then_route(
    v: BrokerView,
    connection: u64,
    stream: u64,
    name: Seq<char>,
    sender_connection: u64,
    sender_stream: u64,
    payload: Seq<u8>,
)
    requires
        payload.len() <= u16::MAX,
    ensures
        ({
            let v1 = spec_handle(v, connection, stream, admin_connect_frame(name)).0;
            spec_handle(v1, sender_connection, sender_stream, route_frame(name, payload)).1
                == HandledView::Sent(seq![(connection, stream, routed_frame(payload))])
        }),
{
    let f = admin_connect_frame(name);
    assert(f.drop_first() =~= name_field(name));
    assert(f.drop_first().subrange(0, 32) =~= name_field(name));
    let key = field_name(name_field(name));
    let v1 = spec_handle(v, connection, stream, f).0;
    assert(v1.admins.contains_key(key) && v1.admins[key] == Link { connection, stream });
    lemma_route_roundtrip(name, payload);
}

/// After a client subscribes to a topic, it is on the topic's list exactly
/// once (when it was at most once before), and subscribing again changes
/// nothing.
pub proof fn lemma_subscribe(v: BrokerView, connection: u64, stream: u64, client_id: u32, topic: Seq<char>)
    requires
        fits_name_field(topic),
        v.subs.contains_key(topic) ==> v.subs[topic].no_duplicates(),
    ensures
        ({
            let v1 = spec_handle(v, connection, stream, subscribe_frame(client_id, topic)).0;
            let v2 = spec_handle(v1, connection, stream, subscribe_frame(client_id, topic)).0;
            &&& v1.subs.contains_key(topic)
            &&& v1.subs[topic].contains(client_id)
            &&& v1.subs[topic].no_duplicates()
            &&& v2 == v1
        }),
{
    lemma_name_field_roundtrip(topic);
    let f = subscribe_frame(client_id, topic);
    let rest = f.drop_first();
    crate::wire::lemma_u32_le_roundtrip(client_id);
    assert(rest =~= u32_le(client_id) + name_field(topic));
    assert(rest.subrange(4, 36) =~= name_field(topic));
    assert(le_u32(rest, 0) == le_u32(u32_le(client_id), 0));
    let list = if v.subs.contains_key(topic) {
        v.subs[topic]
    } else {
        seq![]
    };
    let l1 = with_subscriber(list, client_id);
    if !list.contains(client_id) {
        assert(l1.last() == client_id);
        assert(l1.contains(client_id));
    }
    let v1 = spec_handle(v, connection, stream, f).0;
    assert(v1.subs[topic] == l1);
    let v2 = spec_handle(v1, connection, stream, f).0;
    assert(v2.subs =~= v1.subs);
}

/// After a client unsubscribes from a topic it is no longer on its list.
pub proof fn lemma_unsubscribe(v: BrokerView, connection: u64, stream: u64, client_id: u32, topic: Seq<char>)
    requires
        fits_name_field(topic),
    ensures
        ({
            let v1 = spec_handle(v, connection, stream, unsubscribe_frame(client_id, topic)).0;
            v1.subs.contains_key(topic) ==> !v1.subs[topic].contains(client_id)
        }),
{
    lemma_name_field_roundtrip(topic);
    let f = unsubscribe_frame(client_id, topic);
    let rest = f.drop_first();
    crate::wire::lemma_u32_le_roundtrip(client_id);
    assert(rest =~= u32_le(client_id) + name_field(topic));
    assert(rest.subrange(4, 36) =~= name_field(topic));
    assert(le_u32(rest, 0) == le_u32(u32_le(client_id), 0));
    if v.subs.contains_key(topic) {
        let l = without_subscriber(v.subs[topic], client_id);
        if l.contains(client_id) {
            let k = choose|k: int| 0 <= k < l.len() && l[k] == client_id;
            v.subs[topic].lemma_filter_pred(other_than(client_id), k);
        }
    }
}

/// Filtering out an id that a list does not hold leaves the list as it is.
proof fn lemma_without_absent(list: Seq<u32>, id: u32)
    requires
        !list.contains(id),
    ensures
        without_subscriber(list, id) == list,
    decreases list.len(),
{
    reveal(Seq::filter);
    if list.len() > 0 {
        let init = list.drop_last();
        assert(!init.contains(id)) by {
            if init.contains(id) {
                let k = choose|k: int| 0 <= k < init.len() && init[k] == id;
                assert(list[k] == id);
            }
        }
        lemma_without_absent(init, id);
        assert(list.last() != id) by {
            assert(list[list.len() - 1] == list.last());
        }
        assert(init.push(list.last()) =~= list);
    }
}

/// Unsubscribing undoes a subscription: a client that was not on a topic's
/// list, subscribes and then unsubscribes, leaves the topic's list as it
/// was (an empty list where the topic had none) and every other part of
/// the broker unchanged.
pub proof fn lemma_unsubscribe_undoes_subscribe(
    v: BrokerView,
    connection: u64,
    stream: u64,
    later_connection: u64,
    later_stream: u64,
    client_id: u32,
    topic: Seq<char>,
)
    requires
        fits_name_field(topic),
        v.subs.contains_key(topic) ==> !v.subs[topic].contains(client_id),
    ensures
        ({
            let v1 = spec_handle(v, connection, stream, subscribe_frame(client_id, topic)).0;
            let v2 = spec_handle(
                v1,
                later_connection,
                later_stream,
                unsubscribe_frame(client_id, topic),
            ).0;
            let before = if v.subs.contains_key(topic) {
                v.subs[topic]
            } else {
                seq![]
            };
            v2 == BrokerView { subs: v.subs.insert(topic, before), ..v }
        }),
{
    lemma_name_field_roundtrip(topic);
    crate::wire::lemma_u32_le_roundtrip(client_id);
    let f = subscribe_frame(client_id, topic);
    let rest = f.drop_first();
    assert(rest =~= u32_le(client_id) + name_field(topic));
    assert(rest.subrange(4, 36) =~= name_field(topic));
    assert(le_u32(rest, 0) == le_u32(u32_le(client_id), 0));
    let g = unsubscribe_frame(client_id, topic);
    let grest = g.drop_first();
    assert(grest =~= u32_le(client_id) + name_field(topic));
    assert(grest.subrange(4, 36) =~= name_field(topic));
    assert(le_u32(grest, 0) == le_u32(u32_le(client_id), 0));
    let before = if v.subs.contains_key(topic) {
        v.subs[topic]
    } else {
        seq![]
    };
    assert(!before.contains(client_id));
    let l1 = with_subscriber(before, client_id);
    assert(l1 == before.push(client_id));
    let v1 = spec_handle(v, connection, stream, f).0;
    assert(v1.subs[topic] == l1);
    lemma_without_absent(before, client_id);
    assert(without_subscriber(l1, client_id) == before) by {
        reveal(Seq::filter);
        assert(l1.drop_last() =~= before);
    }
    let v2 = spec_handle(v1, later_connection, later_stream, g).0;
    assert(v2.subs =~= v.subs.insert(topic, before));
}


/// Client ids are handed out in order and never reused: when every
/// registered client has an id below the next one, admitting `m` clients
/// moves the next id on by `m`, gives the `i`-th of them the old next id
/// plus `i` with its own links, keeps every earlier client as it was, and
/// leaves all ids below the new next id. Nothing else in the broker changes.
pub proof fn lemma_registrations_take_fresh_ids(v: BrokerView, joins: Seq<(Link, Option<Link>)>)
    requires
        forall|k: u32| #[trigger] v.clients.contains_key(k) ==> k < v.next_id,
        v.next_id + joins.len() <= u32::MAX,
    ensures
        ({
            let w = after_registers(v, joins);
            &&& w.next_id == v.next_id + joins.len()
            &&& forall|k: u32| #[trigger] w.clients.contains_key(k) ==> k < w.next_id
            &&& forall|i: int|
                #![trigger joins[i]]
                0 <= i < joins.len() ==> {
                    let id = (v.next_id + i) as u32;
                    &&& w.clients.contains_key(id)
                    &&& w.clients[id] == ClientNetworkInfo {
                        broker_to_client: joins[i].0,
                        broker_to_server: joins[i].1,
                    }
                }
            &&& forall|k: u32| #[trigger]
                v.clients.contains_key(k) ==> w.clients.contains_key(k) && w.clients[k]
                    == v.clients[k]
            &&& w.shards == v.shards
            &&& w.subs == v.subs
            &&& w.admins == v.admins
        }),
    decreases joins.len(),
{
    if joins.len() > 0 {
        let init = joins.drop_last();
        lemma_registrations_take_fresh_ids(v, init);
        let p = after_registers(v, init);
        let w = after_registers(v, joins);
        assert(w == after_register(p, joins.last().0, joins.last().1));
        assert forall|i: int| #![trigger joins[i]] 0 <= i < joins.len() implies {
            let id = (v.next_id + i) as u32;
            &&& w.clients.contains_key(id)
            &&& w.clients[id] == ClientNetworkInfo {
                broker_to_client: joins[i].0,
                broker_to_server: joins[i].1,
            }
        } by {
            if i < joins.len() - 1 {
                assert(init[i] == joins[i]);
            }
        }
    }
}


/// Client ids are never reused: when every registered client has an id
/// below the next one, a newly registered client gets an id that no client
/// has, after which all ids are again below the next one; and handling a
/// frame leaves the clients and the next id as they are.
pub proof fn lemma_client_ids_fresh(
    v: BrokerView,
    connection: u64,
    stream: u64,
    data: Seq<u8>,
    info: ClientNetworkInfo,
)
    requires
        forall|k: u32| #[trigger] v.clients.contains_key(k) ==> k < v.next_id,
        v.next_id < u32::MAX,
    ensures
        !v.clients.contains_key(v.next_id),
        forall|k: u32| #[trigger] v.clients.insert(v.next_id, info).contains_key(k) ==> k < v.next_id + 1,
        spec_handle(v, connection, stream, data).0.clients == v.clients,
        spec_handle(v, connection, stream, data).0.next_id == v.next_id,
{
}

} // verus!
