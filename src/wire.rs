//! The values that travel between peers and the rendezvous directory.
use vstd::prelude::*;

verus! {

/// A lobby identifier: eight characters.
pub type LobbyUid = [char; 8];

/// A lobby secret: eight characters, shorter inputs padded with spaces.
pub type Password = [char; 8];

/// The identifier a Host assigns to an authenticated peer: five characters.
pub type PlayerUid = [char; 5];

/// A transport address: the IP address as a big-endian integer, and the port.
#[derive(Clone, Copy, Debug, PartialEq, Eq, Structural)]
pub enum PeerAddr {
    /// An IPv4 address and a port.
    V4(u32, u16),
    /// An IPv6 address and a port.
    V6(u128, u16),
}

/// The instruction a Host hands to its Users.
#[derive(Clone, Debug)]
pub enum Order {
    /// Join the game server with this id, using this password.
    JoinServer(String, String),
    LeaveServer,
}

/// An `Order` as mathematical values.
pub enum OrderModel {
    JoinServer(Seq<char>, Seq<char>),
    LeaveServer,
}

impl View for Order {
    type V = OrderModel;

    open spec fn view(&self) -> OrderModel {
        match self {
            Order::JoinServer(id, password) => OrderModel::JoinServer(id@, password@),
            Order::LeaveServer => OrderModel::LeaveServer,
        }
    }
}

impl Default for Order {
    fn default() -> (r: Order)
        ensures
            r@ == OrderModel::LeaveServer,
    {
        Order::LeaveServer
    }
}

impl Order {
    /// A copy of this order.
    pub fn duplicate(&self) -> (r: Order)
        ensures
            r@ == self@,
    {
        match self {
            Order::JoinServer(id, password) => Order::JoinServer(id.clone(), password.clone()),
            Order::LeaveServer => Order::LeaveServer,
        }
    }
}

/// Requests: sent to the rendezvous directory or to another peer.
#[derive(Clone, Debug)]
pub enum PacketMessage {
    FindLobby(LobbyUid),
    CreateLobby,
    NewClient(PeerAddr),
    Auth(Password),
    GetLastOrder(PlayerUid),
    NewOrder(PlayerUid, Order),
    VibeCheck,
    Ping(Option<PlayerUid>),
}

/// Answers to a `PacketMessage`.
#[derive(Clone, Debug)]
pub enum PacketResponse {
    FoundLobby(PeerAddr),
    NoLobby(LobbyUid),
    CreatedLobby(LobbyUid),
    AuthAccepted(PlayerUid, Password),
    FailedAuth,
    Pong,
}

/// One datagram's worth of protocol.
#[derive(Clone, Debug)]
pub enum SentPacket {
    PacketMessage(PacketMessage),
    PacketResponse(PacketResponse),
}

/// A `PacketMessage` as mathematical values; identifiers become character sequences.
pub enum MessageModel {
    FindLobby(Seq<char>),
    CreateLobby,
    NewClient(PeerAddr),
    Auth(Seq<char>),
    GetLastOrder(Seq<char>),
    NewOrder(Seq<char>, OrderModel),
    VibeCheck,
    Ping(Option<Seq<char>>),
}

/// A `PacketResponse` as mathematical values.
pub enum ResponseModel {
    FoundLobby(PeerAddr),
    NoLobby(Seq<char>),
    CreatedLobby(Seq<char>),
    AuthAccepted(Seq<char>, Seq<char>),
    FailedAuth,
    Pong,
}

/// A `SentPacket` as mathematical values.
pub enum PacketModel {
    Message(MessageModel),
    Response(ResponseModel),
}

impl View for PacketMessage {
    type V = MessageModel;

    open spec fn view(&self) -> MessageModel {
        match self {
            PacketMessage::FindLobby(id) => MessageModel::FindLobby(id@),
            PacketMessage::CreateLobby => MessageModel::CreateLobby,
            PacketMessage::NewClient(a) => MessageModel::NewClient(*a),
            PacketMessage::Auth(p) => MessageModel::Auth(p@),
            PacketMessage::GetLastOrder(u) => MessageModel::GetLastOrder(u@),
            PacketMessage::NewOrder(u, o) => MessageModel::NewOrder(u@, o@),
            PacketMessage::VibeCheck => MessageModel::VibeCheck,
            PacketMessage::Ping(u) => MessageModel::Ping(
                match u {
                    Some(u) => Some(u@),
                    None => None,
                },
            ),
        }
    }
}

impl View for PacketResponse {
    type V = ResponseModel;

    open spec fn view(&self) -> ResponseModel {
        match self {
            PacketResponse::FoundLobby(a) => ResponseModel::FoundLobby(*a),
            PacketResponse::NoLobby(id) => ResponseModel::NoLobby(id@),
            PacketResponse::CreatedLobby(id) => ResponseModel::CreatedLobby(id@),
            PacketResponse::AuthAccepted(u, p) => ResponseModel::AuthAccepted(u@, p@),
            PacketResponse::FailedAuth => ResponseModel::FailedAuth,
            PacketResponse::Pong => ResponseModel::Pong,
        }
    }
}

impl View for SentPacket {
    type V = PacketModel;

    open spec fn view(&self) -> PacketModel {
        match self {
            SentPacket::PacketMessage(m) => PacketModel::Message(m@),
            SentPacket::PacketResponse(r) => PacketModel::Response(r@),
        }
    }
}

impl PacketMessage {
    /// Wraps the message as a packet.
    pub fn send(self) -> (r: SentPacket)
        ensures
            r@ == PacketModel::Message(self@),
    {
        SentPacket::PacketMessage(self)
    }
}

impl PacketResponse {
    /// Wraps the response as a packet.
    pub fn send(self) -> (r: SentPacket)
        ensures
            r@ == PacketModel::Response(self@),
    {
        SentPacket::PacketResponse(self)
    }
}

/// Whether two fixed-width identifiers hold the same characters.
pub fn same_chars<const N: usize>(a: &[char; N], b: &[char; N]) -> (r: bool)
    ensures
        r == (a@ == b@),
{
    let mut i: usize = 0;
    while i < N
        invariant
            a@.len() == N,
            b@.len() == N,
            i <= N,
            forall|j: int| 0 <= j < i ==> a@[j] == b@[j],
        decreases N - i,
    {
        if a[i] != b[i] {
            return false;
        }
        i = i + 1;
    }
    proof {
        assert(a@ =~= b@);
    }
    true
}

pub(crate) fn array_of_8(v: &Vec<char>) -> (r: [char; 8])
    requires
        v@.len() == 8,
    ensures
        r@ == v@,
{
    let r = [v[0], v[1], v[2], v[3], v[4], v[5], v[6], v[7]];
    assert(r@ =~= v@);
    r
}

pub(crate) fn array_of_5(v: &Vec<char>) -> (r: [char; 5])
    requires
        v@.len() == 5,
    ensures
        r@ == v@,
{
    let r = [v[0], v[1], v[2], v[3], v[4]];
    assert(r@ =~= v@);
    r
}

/// A packet and the address it goes to.
#[derive(Clone, Debug)]
pub struct Outgoing {
    pub to: PeerAddr,
    pub packet: SentPacket,
}

/// The addresses and packets of `s`, in order.
pub open spec fn sent(s: Seq<Outgoing>) -> Seq<(PeerAddr, PacketModel)> {
    s.map_values(|o: Outgoing| (o.to, o.packet@))
}

/// What can go wrong while handling a packet.
#[derive(Clone, Debug)]
pub enum PartyaError {
    /// The sender at this address claimed a uid other than the one it was given.
    IllegalUid(PlayerUid, PeerAddr),
    /// The rendezvous directory got a packet it does not expect from this sender.
    IllegalPacket(Box<SentPacket>),
}

} // verus!
