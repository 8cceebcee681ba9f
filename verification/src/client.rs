//! The game client: it learns its id from the broker, reads broadcasts,
//! and sends its last sixteen inputs on a timer. The functions here decide;
//! the caller performs the returned actions on the socket.
use vstd::prelude::*;
use crate::wire::{le_u32, read_u32_le, push_bytes};
use crate::protocol::{ClientInput, INPUT_LEFT, INPUT_RIGHT, INPUT_UP, INPUT_DOWN, parse_broadcast, Broadcast};

verus! {

/// What a client holds: its id (0 until the broker gives one), its
/// connection and stream to the broker, its input history, newest first,
/// and the number of inputs sent.
pub struct ClientState {
    pub client_id: u32,
    pub broker_connection: Option<u64>,
    pub broker_stream: Option<u64>,
    pub input_buffer: [u8; 16],
    pub input_id: usize,
}

/// Something for the caller to do on the client's behalf.
#[derive(Debug, PartialEq, Eq)]
pub enum ClientAction {
    /// Send a frame on a connection and stream.
    Send { connection: u64, stream: u64, data: Vec<u8> },
    /// Open a stream on a connection, reliable or not.
    CreateStream { connection: u64, reliable: bool },
}

/// What a frame from the broker told the client.
#[derive(Debug, PartialEq, Eq)]
pub enum ClientEvent {
    /// The broker gave the client its id.
    IdAssigned(u32),
    /// A broadcast, with its payload.
    Broadcast(Vec<u8>),
    /// A broadcast cut short.
    BadBroadcast,
    /// A frame the client does not read.
    Ignored,
}

/// `rand::random::<bool>()`: a random boolean; nothing is promised of it.
#[verifier::external_body]
fn random_bool() -> (b: bool) {
    rand::random::<bool>()
}

/// The input byte of the four directions held: left, right, up, down bits.
pub open spec fn input_mask(left: bool, right: bool, up: bool, down: bool) -> u8 {
    (if left {
        INPUT_LEFT
    } else {
        0u8
    }) | (if right {
        INPUT_RIGHT
    } else {
        0u8
    }) | (if up {
        INPUT_UP
    } else {
        0u8
    }) | (if down {
        INPUT_DOWN
    } else {
        0u8
    })
}

/// Each held direction sets its own bit of the input byte, and no other
/// bit is ever set: bit 0 (`INPUT_LEFT`) for left, bit 1 (`INPUT_RIGHT`) for
/// right, bit 2 (`INPUT_UP`) for up, bit 3 (`INPUT_DOWN`) for down.
pub proof fn lemma_input_mask_bits(left: bool, right: bool, up: bool, down: bool)
    ensures
        INPUT_LEFT == 1u8 && INPUT_RIGHT == 2u8 && INPUT_UP == 4u8 && INPUT_DOWN == 8u8,
        (input_mask(left, right, up, down) & 1u8 != 0) == left,
        (input_mask(left, right, up, down) & 2u8 != 0) == right,
        (input_mask(left, right, up, down) & 4u8 != 0) == up,
        (input_mask(left, right, up, down) & 8u8 != 0) == down,
        input_mask(left, right, up, down) & 0xf0u8 == 0,
{
    assert({
        &&& (input_mask(left, right, up, down) & 1u8 != 0) == left
        &&& (input_mask(left, right, up, down) & 2u8 != 0) == right
        &&& (input_mask(left, right, up, down) & 4u8 != 0) == up
        &&& (input_mask(left, right, up, down) & 8u8 != 0) == down
        &&& input_mask(left, right, up, down) & 0xf0u8 == 0
    }) by (bit_vector);
}

/// The input byte of the directions held.
pub fn make_input(left: bool, right: bool, up: bool, down: bool) -> (r: u8)
    ensures
        r == input_mask(left, right, up, down),
        (r & INPUT_LEFT != 0) == left,
        (r & INPUT_RIGHT != 0) == right,
        (r & INPUT_UP != 0) == up,
        (r & INPUT_DOWN != 0) == down,
{
    proof {
        lemma_input_mask_bits(left, right, up, down);
    }
    (if left {
        INPUT_LEFT
    } else {
        0u8
    }) | (if right {
        INPUT_RIGHT
    } else {
        0u8
    }) | (if up {
        INPUT_UP
    } else {
        0u8
    }) | (if down {
        INPUT_DOWN
    } else {
        0u8
    })
}

/// A random input: each of the four directions held or not, by chance.
/// Only the four direction bits can be set.
pub fn random_input() -> (r: u8)
    ensures
        r & 0xf0 == 0,
        exists|l: bool, ri: bool, u: bool, d: bool| r == input_mask(l, ri, u, d),
{
    let left = random_bool();
    let right = random_bool();
    let up = random_bool();
    let down = random_bool();
    let r = make_input(left, right, up, down);
    assert(input_mask(left, right, up, down) & 0xf0 == 0) by (bit_vector)
        requires
            left == left,
    ;
    r
}

/// Pushes `input` in front of the history, the oldest input falling off.
pub fn add_input_in_buffer(buffer: &mut [u8; 16], input: u8)
    ensures
        final(buffer)@[0] == input,
        forall|i: int| 1 <= i < 16 ==> #[trigger] final(buffer)@[i] == old(buffer)@[i - 1],
{
    let mut i: usize = 15;
    while i >= 1
        invariant
            i <= 15,
            buffer@.len() == 16,
            forall|k: int| 0 <= k <= i ==> #[trigger] buffer@[k] == old(buffer)@[k],
            forall|k: int| i < k < 16 ==> #[trigger] buffer@[k] == old(buffer)@[k - 1],
        decreases i,
    {
        let prev = buffer[i - 1];
        buffer[i] = prev;
        i = i - 1;
    }
    buffer[0] = input;
}

/// `new_buffer` is the history `old_buffer` after `input` came in.
pub open spec fn pushed(old_buffer: Seq<u8>, new_buffer: Seq<u8>, input: u8) -> bool {
    &&& new_buffer.len() == 16
    &&& new_buffer[0] == input
    &&& forall|i: int| 1 <= i < 16 ==> #[trigger] new_buffer[i] == old_buffer[i - 1]
}

impl ClientState {
    /// A client with no id, no connection, an empty history.
    pub fn new() -> (r: ClientState)
        ensures
            r.client_id == 0,
            r.broker_connection is None,
            r.broker_stream is None,
            r.input_buffer@ == Seq::new(16, |i: int| 0u8),
            r.input_id == 0,
    {
        let r = ClientState {
            client_id: 0,
            broker_connection: None,
            broker_stream: None,
            input_buffer: [0u8; 16],
            input_id: 0,
        };
        assert(r.input_buffer@ =~= Seq::new(16, |i: int| 0u8));
        r
    }

    /// The connection to the broker is established: a reliable stream is
    /// opened on it.
    pub fn on_connected(&mut self, connection: u64) -> (r: ClientAction)
        ensures
            final(self).broker_connection == Some(connection),
            final(self).broker_stream == old(self).broker_stream,
            final(self).client_id == old(self).client_id,
            final(self).input_buffer == old(self).input_buffer,
            final(self).input_id == old(self).input_id,
            r == (ClientAction::CreateStream { connection, reliable: true }),
    {
        self.broker_connection = Some(connection);
        ClientAction::CreateStream { connection, reliable: true }
    }

    /// The stream is open: the client asks the broker to enter the world,
    /// with the single byte `0x07`.
    pub fn on_stream_created(&mut self, connection: u64, stream: u64) -> (r: ClientAction)
        ensures
            final(self).broker_stream == Some(stream),
            final(self).broker_connection == old(self).broker_connection,
            final(self).client_id == old(self).client_id,
            final(self).input_buffer == old(self).input_buffer,
            final(self).input_id == old(self).input_id,
            r matches ClientAction::Send { connection: c, stream: s, data } && c == connection && s == stream
                && data@ == seq![0x07u8],
    {
        self.broker_stream = Some(stream);
        let mut data: Vec<u8> = Vec::new();
        data.push(0x07u8);
        assert(data@ =~= seq![0x07u8]);
        ClientAction::Send { connection, stream, data }
    }

    /// A frame from the broker: `0x06` and at least four bytes give the
    /// client its id; `0x04` is a broadcast; anything else is ignored.
    /// The frame is not empty.
    pub fn receive_packet(&mut self, data: &[u8]) -> (r: ClientEvent)
        requires
            data@.len() > 0,
        ensures
            final(self).broker_connection == old(self).broker_connection,
            final(self).broker_stream == old(self).broker_stream,
            final(self).input_buffer == old(self).input_buffer,
            final(self).input_id == old(self).input_id,
            data@[0] == 0x06 && data@.len() >= 5 ==> final(self).client_id == le_u32(data@, 1) && r
                == ClientEvent::IdAssigned(le_u32(data@, 1) as u32),
            !(data@[0] == 0x06 && data@.len() >= 5) ==> final(self).client_id == old(self).client_id,
            data@[0] == 0x04 ==> match parse_broadcast(data@.drop_first()) {
                Some(p) => r matches ClientEvent::Broadcast(v) && v@ == p,
                None => r is BadBroadcast,
            },
            data@[0] != 0x04 && !(data@[0] == 0x06 && data@.len() >= 5) ==> r is Ignored,
    {
        let tag = data[0];
        if tag == 0x06 {
            if data.len() < 5 {
                return ClientEvent::Ignored;
            }
            let id = read_u32_le(data, 1);
            self.client_id = id;
            return ClientEvent::IdAssigned(id);
        }
        if tag == 0x04 {
            let body = crate::wire::slice_to_vec(data, 1, data.len());
            assert(body@ =~= data@.drop_first());
            return match Broadcast::from_frame(body.as_slice()) {
                Some(b) => ClientEvent::Broadcast(b.playload),
                None => ClientEvent::BadBroadcast,
            };
        }
        ClientEvent::Ignored
    }

    /// Takes an input on the timer: the input goes in front of the history,
    /// and the returned message carries the client's id, the number of
    /// inputs sent before (cut to 32 bits), and the history. The count moves
    /// on, wrapping as `AtomicUsize::fetch_add` does.
    pub fn next_input(&mut self, input: u8) -> (r: ClientInput)
        ensures
            pushed(old(self).input_buffer@, final(self).input_buffer@, input),
            r.client_id == old(self).client_id,
            r.sequence_id == old(self).input_id as u32,
            r.input == final(self).input_buffer,
            final(self).input_id == if old(self).input_id == usize::MAX {
                0
            } else {
                (old(self).input_id + 1) as usize
            },
            final(self).client_id == old(self).client_id,
            final(self).broker_connection == old(self).broker_connection,
            final(self).broker_stream == old(self).broker_stream,
    {
        add_input_in_buffer(&mut self.input_buffer, input);
        let seq = self.input_id as u32;
        self.input_id = if self.input_id == usize::MAX {
            0
        } else {
            self.input_id + 1
        };
        ClientInput { client_id: self.client_id, sequence_id: seq, input: self.input_buffer }
    }

    /// The frame of a serialised input message, `0x05` then the bytes,
    /// sent once the connection and stream are known.
    pub fn input_frame(&self, serialized: &[u8]) -> (r: Option<ClientAction>)
        ensures
            match (self.broker_connection, self.broker_stream) {
                (Some(c), Some(s)) => r matches Some(ClientAction::Send { connection, stream, data })
                    && connection == c && stream == s && data@ == seq![0x05u8] + serialized@,
                _ => r is None,
            },
    {
        match (self.broker_connection, self.broker_stream) {
            (Some(c), Some(s)) => {
                let mut data: Vec<u8> = Vec::new();
                data.push(0x05u8);
                push_bytes(&mut data, serialized);
                Some(ClientAction::Send { connection: c, stream: s, data })
            },
            _ => None,
        }
    }
}

} // verus!
