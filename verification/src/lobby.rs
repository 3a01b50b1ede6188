use crate::game_packets::{be_bytes, be_word};
use crate::packet::{deserialize_queue, parse_queue, parsed_len, queue_view, IndexedPacket, Packet};
use vstd::prelude::*;

verus! {

/// What a client says in the lobby.
#[derive(Debug, Clone)]
pub enum ClientPacket {
    SetName(String),
    RequestMap,
    /// The client has the map and needs nothing.
    Ready,
}

/// What the server says in the lobby.
#[derive(Debug, Clone)]
pub enum ServerPacket {
    SetMap(String),
    CreateFile { name: String, contents: Vec<u8> },
    SetPlayers(Vec<(u8, String)>),
    SetId(u8),
    StartGame,
}

/// Why the server turns a client away.
#[derive(Debug, Clone, Copy, PartialEq, Eq, Structural)]
pub enum ServerError {
    AuthenticationError,
}

impl ServerError {
    /// The error in words.
    pub fn message(&self) -> (text: String)
        ensures
            text@ == "Client-side authentication error"@,
    {
        "Client-side authentication error".to_owned()
    }
}

/// Why a client gives up.
#[derive(Debug, Clone, Copy, PartialEq, Eq, Structural)]
pub enum ClientError {
    AuthenticationError,
    NoConnectionToServer,
    ServerClosedConnection,
}

impl ClientError {
    /// The error in words.
    pub fn message(&self) -> (text: String)
        ensures
            text@ == match *self {
                ClientError::AuthenticationError => "Server-side authentication error"@,
                ClientError::NoConnectionToServer => "No connection to server"@,
                ClientError::ServerClosedConnection => "Server closed connection"@,
            },
    {
        match *self {
            ClientError::AuthenticationError => "Server-side authentication error".to_owned(),
            ClientError::NoConnectionToServer => "No connection to server".to_owned(),
            ClientError::ServerClosedConnection => "Server closed connection".to_owned(),
        }
    }
}

/// What a client knows of the lobby.
pub struct LobbyInfo {
    pub id: u8,
    pub map: String,
    pub players: Vec<(u8, String)>,
}

/// A frame: the length of the body as a big-endian 32-bit word, then the body.
pub open spec fn framed(body: Seq<u8>) -> Seq<u8> {
    be_bytes(body.len() as u32) + body
}

/// The body of the frame at the front of `bytes`, if the bytes hold the frame in full.
pub open spec fn frame_body(bytes: Seq<u8>) -> Option<Seq<u8>> {
    if bytes.len() >= 4 && 4 + be_word(bytes) <= bytes.len() {
        Some(bytes.subrange(4, 4 + be_word(bytes)))
    } else {
        None
    }
}

/// Puts the length of `body` in front of it. The length is written modulo 2^32.
pub fn as_packet(body: &Vec<u8>) -> (packet: Vec<u8>)
    ensures
        packet@ == framed(body@),
{
    let len = #[verifier::truncate]
    (body.len() as u32);
    let mut packet: Vec<u8> = Vec::new();
    packet.push((len >> 24) as u8);
    packet.push((len >> 16) as u8);
    packet.push((len >> 8) as u8);
    packet.push(len as u8);
    let mut k: usize = 0;
    while k < body.len()
        invariant
            k <= body@.len(),
            packet@ == be_bytes(len) + body@.take(k as int),
        decreases body@.len() - k,
    {
        packet.push(body[k]);
        proof {
            assert(packet@ =~= be_bytes(len) + body@.take(k + 1));
        }
        k += 1;
    }
    proof {
        assert(body@.take(k as int) =~= body@);
    }
    packet
}

/// The body of the frame at the front of `bytes`; `None` if the length word or a part of
/// the body is missing.
pub fn from_packet(bytes: &[u8]) -> (body: Option<Vec<u8>>)
    ensures
        match body {
            Some(b) => frame_body(bytes@) == Some(b@),
            None => frame_body(bytes@) is None,
        },
{
    let total = bytes.len();
    if total < 4 {
        return None;
    }
    let len: u32 = ((bytes[0] as u32) << 24) | ((bytes[1] as u32) << 16) | ((bytes[2] as u32) << 8)
        | (bytes[3] as u32);
    if (len as u128) + 4 > total as u128 {
        return None;
    }
    let len = len as usize;
    let mut body: Vec<u8> = Vec::new();
    let mut k: usize = 0;
    while k < len
        invariant
            k <= len,
            4 + len <= total,
            total == bytes@.len(),
            body@ == bytes@.subrange(4, 4 + k),
        decreases len - k,
    {
        body.push(bytes[4 + k]);
        proof {
            assert(body@ =~= bytes@.subrange(4, 4 + k + 1));
        }
        k += 1;
    }
    Some(body)
}

/// Unframing a frame gives its body back, if the body is shorter than 2^32 bytes.
pub proof fn lemma_frame_round_trip(body: Seq<u8>)
    requires
        body.len() <= u32::MAX,
    ensures
        frame_body(framed(body)) == Some(body),
{
    let len = body.len() as u32;
    crate::game_packets::lemma_be_round_trip(len);
    let f = framed(body);
    assert(f[0] == be_bytes(len)[0] && f[1] == be_bytes(len)[1] && f[2] == be_bytes(len)[2]
        && f[3] == be_bytes(len)[3]);
    assert(be_word(f) == len);
    assert(f.subrange(4, 4 + len) =~= body);
}

/// What a client does after a packet of the server in the lobby.
#[derive(Debug)]
pub enum LobbyAction {
    /// Go on reading.
    Continue,
    /// Tell the server that the map is here.
    ConfirmMap,
    /// Ask the server for the map.
    RequestMap,
    /// Store a file of the map.
    StoreFile { name: String, contents: Vec<u8> },
    /// The lobby is over and the game starts.
    Start,
}

/// The lobby as a client knows it, after a packet of the server.
pub open spec fn lobby_after(
    id: u8,
    map: Seq<char>,
    players: Seq<(u8, String)>,
    packet: ServerPacket,
) -> (u8, Seq<char>, Seq<(u8, String)>) {
    match packet {
        ServerPacket::SetId(new_id) => (new_id, map, players),
        ServerPacket::SetMap(new_map) => (id, new_map@, players),
        ServerPacket::SetPlayers(new_players) => (id, map, new_players@),
        _ => (id, map, players),
    }
}

/// Takes in a packet of the server: notes what it says of the lobby and tells what to do
/// next. `map_cached` says whether the map that a `SetMap` names is already here.
pub fn lobby_step(info: &mut LobbyInfo, packet: ServerPacket, map_cached: bool) -> (action:
    LobbyAction)
    ensures
        (final(info).id, final(info).map@, final(info).players@) == lobby_after(
            old(info).id,
            old(info).map@,
            old(info).players@,
            packet,
        ),
        match packet {
            ServerPacket::StartGame => action is Start,
            ServerPacket::SetId(_) => action is Continue,
            ServerPacket::SetPlayers(_) => action is Continue,
            ServerPacket::SetMap(_) => if map_cached {
                action is ConfirmMap
            } else {
                action is RequestMap
            },
            ServerPacket::CreateFile { name, contents } => action == (LobbyAction::StoreFile {
                name,
                contents,
            }),
        },
{
    match packet {
        ServerPacket::StartGame => LobbyAction::Start,
        ServerPacket::SetId(new_id) => {
            info.id = new_id;
            LobbyAction::Continue
        },
        ServerPacket::SetMap(new_map) => {
            info.map = new_map;
            if map_cached {
                LobbyAction::ConfirmMap
            } else {
                LobbyAction::RequestMap
            }
        },
        ServerPacket::SetPlayers(new_players) => {
            info.players = new_players;
            LobbyAction::Continue
        },
        ServerPacket::CreateFile { name, contents } => LobbyAction::StoreFile { name, contents },
    }
}

/// Where the server stands with a client that has connected.
#[derive(Debug)]
pub enum Handshake {
    /// The client has not given its name yet.
    AwaitName,
    /// The client has been told its id and the map, and has not answered yet.
    AwaitMapReply { name: String },
    /// The client is in the lobby.
    Joined { name: String },
    /// The client was turned away.
    Rejected,
}

/// What the server does after a packet of a client that is joining.
#[derive(Debug, Clone, Copy, PartialEq, Eq, Structural)]
pub enum HandshakeAction {
    /// Tell the client its id, then the map.
    Greet,
    /// Send the map file, every texture and the background, if there is one.
    SendMap,
    /// Nothing to send.
    Proceed,
    /// Close the connection.
    Reject(ServerError),
}

/// Takes in a packet of a client that is joining. The first packet must give the name;
/// the second may ask for the map. After that the client has joined.
pub fn handshake_step(state: Handshake, packet: ClientPacket) -> (next: (
    Handshake,
    HandshakeAction,
))
    ensures
        match (state, packet) {
            (Handshake::AwaitName, ClientPacket::SetName(name)) => next.0 == (
            Handshake::AwaitMapReply { name }) && next.1 == HandshakeAction::Greet,
            (Handshake::AwaitName, _) => next.0 is Rejected && next.1 == HandshakeAction::Reject(
                ServerError::AuthenticationError,
            ),
            (Handshake::AwaitMapReply { name }, ClientPacket::RequestMap) => next.0 == (
            Handshake::Joined { name }) && next.1 == HandshakeAction::SendMap,
            (Handshake::AwaitMapReply { name }, _) => next.0 == (Handshake::Joined { name })
                && next.1 == HandshakeAction::Proceed,
            (Handshake::Joined { name }, _) => next.0 == (Handshake::Joined { name }) && next.1
                == HandshakeAction::Proceed,
            (Handshake::Rejected, _) => next.0 is Rejected && next.1 == HandshakeAction::Reject(
                ServerError::AuthenticationError,
            ),
        },
{
    match state {
        Handshake::AwaitName => match packet {
            ClientPacket::SetName(name) => (
                Handshake::AwaitMapReply { name },
                HandshakeAction::Greet,
            ),
            _ => (Handshake::Rejected, HandshakeAction::Reject(ServerError::AuthenticationError)),
        },
        Handshake::AwaitMapReply { name } => match packet {
            ClientPacket::RequestMap => (Handshake::Joined { name }, HandshakeAction::SendMap),
            _ => (Handshake::Joined { name }, HandshakeAction::Proceed),
        },
        Handshake::Joined { name } => (Handshake::Joined { name }, HandshakeAction::Proceed),
        Handshake::Rejected => (
            Handshake::Rejected,
            HandshakeAction::Reject(ServerError::AuthenticationError),
        ),
    }
}

/// How a read or a write on a socket that does not block ended.
#[derive(Debug, Clone, Copy, PartialEq, Eq, Structural)]
pub enum Transfer {
    /// So many bytes were moved.
    Done(usize),
    /// The socket was not ready.
    WouldBlock,
    /// Any other error.
    Failed,
}

/// What a task of the server does after a read or a write.
#[derive(Debug, Clone, Copy, PartialEq, Eq, Structural)]
pub enum Verdict {
    /// A packet came in: put it into the queue and read on.
    Accept,
    /// Try the same again.
    Retry,
    /// Go on with the next player.
    Next,
    /// Stop serving this player.
    Close,
}

/// What the listener of a player does after a read: a read of no bytes or an error ends
/// the link, a socket that was not ready is read again, anything else is a packet.
pub fn after_read(outcome: Transfer) -> (verdict: Verdict)
    ensures
        verdict == match outcome {
            Transfer::Done(n) => if n == 0 {
                Verdict::Close
            } else {
                Verdict::Accept
            },
            Transfer::WouldBlock => Verdict::Retry,
            Transfer::Failed => Verdict::Close,
        },
{
    match outcome {
        Transfer::Done(n) => if n == 0 {
            Verdict::Close
        } else {
            Verdict::Accept
        },
        Transfer::WouldBlock => Verdict::Retry,
        Transfer::Failed => Verdict::Close,
    }
}

/// What the broadcaster does after a write to a player: a socket that was not ready is
/// written to again; after anything else it is the next player's turn.
pub fn after_write(outcome: Transfer) -> (verdict: Verdict)
    ensures
        verdict == match outcome {
            Transfer::WouldBlock => Verdict::Retry,
            _ => Verdict::Next,
        },
{
    match outcome {
        Transfer::WouldBlock => Verdict::Retry,
        _ => Verdict::Next,
    }
}

/// The id of a player after the ids `i` and `j` were swapped.
pub fn swapped_id(id: u8, i: u8, j: u8) -> (new_id: u8)
    ensures
        new_id == if id == i {
            j
        } else if id == j {
            i
        } else {
            id
        },
{
    if id == i {
        j
    } else if id == j {
        i
    } else {
        id
    }
}

/// Takes the whole buckets out of the first `filled` bytes of a receive buffer, moves what
/// is left over to the front, and doubles the buffer, with zeros, if more than half of it
/// is left over. Returns the buckets and the number of bytes left over: the place at
/// which the next bytes are to be read in.
pub fn receive<P: Packet<SIZE>, const SIZE: usize>(buf: &mut Vec<u8>, filled: usize) -> (result: (
    Vec<Vec<IndexedPacket<P, SIZE>>>,
    usize,
))
    requires
        filled <= old(buf)@.len(),
    ensures
        queue_view(result.0@) == parse_queue::<P, SIZE>(old(buf)@.take(filled as int)),
        result.1 == filled - parsed_len(old(buf)@.take(filled as int), SIZE as nat),
        final(buf)@.take(result.1 as int) == old(buf)@.subrange(
            filled - result.1,
            filled as int,
        ),
        final(buf)@.len() == if result.1 > old(buf)@.len() / 2 {
            2 * old(buf)@.len()
        } else {
            old(buf)@.len()
        },
        forall|k: int| result.1 <= k < old(buf)@.len() ==> final(buf)@[k] == old(buf)@[k],
        forall|k: int| old(buf)@.len() <= k < final(buf)@.len() ==> final(buf)@[k] == 0,
{
    let ghost before = buf@;
    let mut head: Vec<u8> = Vec::new();
    let mut k: usize = 0;
    while k < filled
        invariant
            k <= filled <= buf@.len(),
            buf@ == before,
            head@ == before.take(k as int),
        decreases filled - k,
    {
        head.push(buf[k]);
        proof {
            assert(head@ =~= before.take(k + 1));
        }
        k += 1;
    }
    let (buckets, res_len) = deserialize_queue::<P, SIZE>(head.as_mut_slice());
    proof {
        crate::packet::lemma_parsed_len_bound(before.take(filled as int), SIZE as nat);
    }
    let mut k: usize = 0;
    while k < res_len
        invariant
            k <= res_len <= filled,
            filled <= buf@.len(),
            buf@.len() == before.len(),
            head@.len() == filled,
            head@.take(res_len as int) == before.take(filled as int).skip(filled - res_len),
            forall|m: int| 0 <= m < k ==> buf@[m] == head@[m],
            forall|m: int| k <= m < before.len() ==> buf@[m] == before[m],
        decreases res_len - k,
    {
        buf[k] = head[k];
        k += 1;
    }
    let len = buf.len();
    if res_len > len / 2 {
        let mut k: usize = 0;
        while k < len
            invariant
                k <= len,
                res_len <= len,
                len == before.len(),
                buf@.len() == len + k,
                head@.take(res_len as int) == before.take(filled as int).skip(filled - res_len),
                res_len <= filled,
                head@.len() == filled,
                forall|m: int| 0 <= m < res_len ==> buf@[m] == head@[m],
                forall|m: int| res_len <= m < len ==> buf@[m] == before[m],
                forall|m: int| len <= m < len + k ==> buf@[m] == 0,
            decreases len - k,
        {
            buf.push(0);
            k += 1;
        }
    }
    proof {
        let left = head@.take(res_len as int);
        assert forall|m: int| 0 <= m < res_len implies buf@[m] == before[filled - res_len + m] by {
            assert(left[m] == head@[m]);
            assert(left[m] == before.take(filled as int).skip(filled - res_len)[m]);
        }
        assert(buf@.take(res_len as int) =~= before.subrange(filled - res_len, filled as int));
    }
    (buckets, res_len)
}

} // verus!
