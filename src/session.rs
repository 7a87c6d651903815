//! The peer side: a Host or a User, driven by local commands and by packets.
//!
//! Nothing here touches a socket or a thread. Each handler takes the current
//! state and one event, updates the state, and returns the effects that the
//! embedding loop must carry out, in order.
use vstd::prelude::*;
use crate::codec::{decode, enc_packet, lemma_round_trip, packet_fits};
use crate::ids::{is_id_char, new_player_uid};
use crate::wire::{
    LobbyUid, MessageModel, Order, OrderModel, Outgoing, PacketMessage, PacketModel,
    PacketResponse, PartyaError, Password, PeerAddr, PlayerUid, ResponseModel, SentPacket,
    same_chars,
};

verus! {

/// The state of a peer that owns a lobby.
#[derive(Debug)]
pub struct Host {
    pub lobby_id: Option<LobbyUid>,
    pub password: Password,
    /// Authenticated peers, each address at most once.
    pub clients: Vec<(PeerAddr, PlayerUid)>,
    pub last_order: Order,
}

/// The state of a peer that joins a lobby.
#[derive(Debug)]
pub struct User {
    /// The Host this peer is authenticated with.
    pub server: Option<PeerAddr>,
    pub uid: PlayerUid,
    pub password: Password,
    pub cached_order: Order,
    pub connect_to: Option<PeerAddr>,
}

/// A peer's role: exactly one of the two at any time.
#[derive(Debug)]
pub enum ConnectionState {
    User(User),
    Host(Host),
}

/// Commands from the embedding application, and notifications back to it.
#[derive(Debug)]
pub enum LocalMessage {
    ExecuteOrder(Order),
    ExecuteConCommand(String),
    ConnectToLobby(LobbyUid, Password),
    BecomeHost(Password),
    BecomeUser,
    Leave,
    NewOrder(Order),
    GetCachedOrder,
    ForwardToGui(Box<LocalMessage>),
    ForwardToEngine(Box<LocalMessage>),
    LobbyUid(Option<String>),
    IsHost(bool),
    NewConnection(String),
    DroppedConnection(String),
}

/// What the embedding loop must do after a handler returns.
#[derive(Debug)]
pub enum Effect {
    /// Send a packet reliably.
    Send(Outgoing),
    /// After the keepalive delay, send `Ping(uid)` to the address.
    ArmPing(PeerAddr, Option<PlayerUid>),
    /// Hand the order to the local application.
    ExecuteOrder(Order),
    /// Publish the lobby identifier as the invite secret.
    PublishSecret(LobbyUid),
    /// Withdraw the published invite secret.
    ClearSecret,
}

/// What the invite service answers when a lobby is published as its secret.
#[must_use]
#[derive(Clone, Copy, Debug, PartialEq, Eq, Structural)]
pub enum IniviteHandlerResult {
    Sucess,
    Failure,
}

/// An `Effect` as mathematical values.
pub enum EffectModel {
    Send(PeerAddr, PacketModel),
    ArmPing(PeerAddr, Option<Seq<char>>),
    ExecuteOrder(OrderModel),
    PublishSecret(Seq<char>),
    ClearSecret,
}

impl View for Effect {
    type V = EffectModel;

    open spec fn view(&self) -> EffectModel {
        match self {
            Effect::Send(o) => EffectModel::Send(o.to, o.packet@),
            Effect::ArmPing(a, u) => EffectModel::ArmPing(
                *a,
                match u {
                    Some(u) => Some(u@),
                    None => None,
                },
            ),
            Effect::ExecuteOrder(o) => EffectModel::ExecuteOrder(o@),
            Effect::PublishSecret(id) => EffectModel::PublishSecret(id@),
            Effect::ClearSecret => EffectModel::ClearSecret,
        }
    }
}

/// The effects of `s`, in order.
pub open spec fn effects(s: Seq<Effect>) -> Seq<EffectModel> {
    s.map_values(|e: Effect| e@)
}

/// A packet sent to `to`.
pub open spec fn send_to(to: PeerAddr, p: PacketModel) -> EffectModel {
    EffectModel::Send(to, p)
}

/// The characters of an identifier that was never assigned.
pub open spec fn blank(n: nat) -> Seq<char> {
    Seq::new(n, |i: int| '\0')
}

/// Whether some client of `clients` has address `addr`.
pub open spec fn has_client(clients: Seq<(PeerAddr, PlayerUid)>, addr: PeerAddr) -> bool {
    exists|i: int| 0 <= i < clients.len() && (#[trigger] clients[i]).0 == addr
}

/// Whether no client of `clients` has the uid `uid`.
pub open spec fn uid_unused(clients: Seq<(PeerAddr, PlayerUid)>, uid: Seq<char>) -> bool {
    forall|i: int| 0 <= i < clients.len() ==> (#[trigger] clients[i]).1@ != uid
}

/// Whether no two clients of `clients` share an address.
pub open spec fn unique_addrs(clients: Seq<(PeerAddr, PlayerUid)>) -> bool {
    forall|i: int, j: int|
        0 <= i < j < clients.len() ==> (#[trigger] clients[i]).0 != (#[trigger] clients[j]).0
}

/// Whether `clients2` holds the clients of `clients` but the one at `addr`.
pub open spec fn client_evicted(
    clients: Seq<(PeerAddr, PlayerUid)>,
    addr: PeerAddr,
    clients2: Seq<(PeerAddr, PlayerUid)>,
) -> bool {
    &&& forall|c: (PeerAddr, PlayerUid)|
        #[trigger] clients2.contains(c) <==> (clients.contains(c) && c.0 != addr)
    &&& clients2.len() == if has_client(clients, addr) {
        clients.len() - 1
    } else {
        clients.len() as int
    }
}

/// Whether a Host in state `h` that got message `m` from `addr` ends in `h2`,
/// with its effects going from `before` to `after`, and result `r`. A uid that
/// differs from the one registered for `addr` is refused; where `evict`, the
/// client at `addr` is then dropped, else the clients stay.
pub open spec fn host_message_handled(
    h: Host,
    addr: PeerAddr,
    m: MessageModel,
    h2: Host,
    before: Seq<EffectModel>,
    after: Seq<EffectModel>,
    r: Result<(), PartyaError>,
    evict: bool,
) -> bool {
    let cl = h.clients@;
    let registered = has_client(cl, addr);
    &&& h2.lobby_id == h.lobby_id
    &&& h2.password == h.password
    &&& h2.last_order == h.last_order
    &&& match m {
        MessageModel::Auth(password) => if registered {
            h2.clients@ == cl && r is Ok && after == before
        } else if password != h.password@ {
            &&& h2.clients@ == cl
            &&& r is Ok
            &&& after == before.push(
                send_to(addr, PacketModel::Response(ResponseModel::FailedAuth)),
            )
        } else {
            let uid = h2.clients@.last().1;
            ||| {
                &&& h2.clients@ == cl.push((addr, uid))
                &&& forall|i: int| 0 <= i < 5 ==> is_id_char(#[trigger] uid@[i])
                &&& uid_unused(cl, uid@)
                &&& r is Ok
                &&& after == before.push(
                    send_to(
                        addr,
                        PacketModel::Response(ResponseModel::AuthAccepted(uid@, h.password@)),
                    ),
                )
            }
            ||| {
                &&& h2.clients@ == cl
                &&& r is Ok
                &&& after == before.push(
                    send_to(addr, PacketModel::Response(ResponseModel::FailedAuth)),
                )
            }
        },
        MessageModel::GetLastOrder(uid) => if !registered {
            h2.clients@ == cl && r is Ok && after == before
        } else {
            forall|i: int|
                0 <= i < cl.len() && (#[trigger] cl[i]).0 == addr ==> (if cl[i].1@ == uid {
                    &&& h2.clients@ == cl
                    &&& r is Ok
                    &&& after == before.push(
                        send_to(
                            addr,
                            PacketModel::Message(MessageModel::NewOrder(uid, h.last_order@)),
                        ),
                    )
                } else {
                    &&& r == Err::<(), PartyaError>(PartyaError::IllegalUid(cl[i].1, addr))
                    &&& after == before
                    &&& (if evict {
                        client_evicted(cl, addr, h2.clients@)
                    } else {
                        h2.clients@ == cl
                    })
                })
        },
        MessageModel::NewClient(a) => if registered {
            h2.clients@ == cl && r is Ok && after == before
        } else {
            &&& h2.clients@ == cl
            &&& r is Ok
            &&& after == before.push(send_to(a, PacketModel::Message(MessageModel::VibeCheck)))
        },
        MessageModel::Ping(Some(uid)) => if !registered {
            h2.clients@ == cl && r is Ok && after == before
        } else {
            forall|i: int|
                0 <= i < cl.len() && (#[trigger] cl[i]).0 == addr ==> (if cl[i].1@ == uid {
                    &&& h2.clients@ == cl
                    &&& r is Ok
                    &&& after == before.push(
                        send_to(addr, PacketModel::Response(ResponseModel::Pong)),
                    )
                } else {
                    &&& r == Err::<(), PartyaError>(PartyaError::IllegalUid(cl[i].1, addr))
                    &&& after == before
                    &&& (if evict {
                        client_evicted(cl, addr, h2.clients@)
                    } else {
                        h2.clients@ == cl
                    })
                })
        },
        _ => h2.clients@ == cl && r is Ok && after == before,
    }
}

/// Whether a User in state `u` that got message `m` from `addr` ends in
/// `u2`, with its effects going from `before` to `after`. Only messages that
/// carry the User's own uid are acted on.
pub open spec fn user_message_handled(
    u: User,
    addr: PeerAddr,
    m: MessageModel,
    u2: User,
    before: Seq<EffectModel>,
    after: Seq<EffectModel>,
) -> bool {
    match m {
        MessageModel::NewOrder(uid, o) if uid == u.uid@ => {
            &&& u2.cached_order@ == o
            &&& u2.server == u.server
            &&& u2.uid == u.uid
            &&& u2.password == u.password
            &&& u2.connect_to == u.connect_to
            &&& after == before.push(EffectModel::ExecuteOrder(o))
        },
        MessageModel::Ping(Some(uid)) if uid == u.uid@ => {
            &&& u2 == u
            &&& after == before.push(send_to(addr, PacketModel::Response(ResponseModel::Pong)))
        },
        _ => u2 == u && after == before,
    }
}

/// Whether a peer in state `s` that got response `resp` from `addr` ends in
/// `s2`, with its effects going from `before` to `after`; `stun` is the
/// rendezvous directory's address.
pub open spec fn response_handled(
    s: ConnectionState,
    stun: PeerAddr,
    addr: PeerAddr,
    resp: ResponseModel,
    s2: ConnectionState,
    before: Seq<EffectModel>,
    after: Seq<EffectModel>,
) -> bool {
    match (resp, s) {
        (ResponseModel::AuthAccepted(uid, password), ConnectionState::User(u)) => if password
            == u.password@ && u.server is None {
            &&& s2 matches ConnectionState::User(u2) && u2.server == Some(addr) && u2.uid@ == uid
                && u2.password == u.password && u2.cached_order == u.cached_order
                && u2.connect_to == u.connect_to
            &&& after == before + seq![
                send_to(addr, PacketModel::Message(MessageModel::GetLastOrder(uid))),
                EffectModel::ArmPing(addr, Some(uid)),
            ]
        } else {
            s2 == s && after == before
        },
        (ResponseModel::FoundLobby(lobby), ConnectionState::User(u)) => {
            &&& s2 == s
            &&& after == before.push(
                send_to(lobby, PacketModel::Message(MessageModel::Auth(u.password@))),
            )
        },
        (ResponseModel::CreatedLobby(id), ConnectionState::Host(h)) => {
            &&& s2 matches ConnectionState::Host(h2) && h2.lobby_id matches Some(l) && l@ == id
                && h2.password == h.password && h2.clients == h.clients && h2.last_order
                == h.last_order
            &&& after == before + seq![
                EffectModel::ArmPing(addr, None),
                EffectModel::PublishSecret(id),
            ]
        },
        (ResponseModel::Pong, ConnectionState::Host(h)) => {
            &&& s2 == s
            &&& forall|i: int|
                0 <= i < h.clients@.len() && (#[trigger] h.clients@[i]).0 == addr ==> after
                    == before.push(EffectModel::ArmPing(addr, Some(h.clients@[i].1@)))
            &&& !has_client(h.clients@, addr) && addr == stun ==> after == before.push(
                EffectModel::ArmPing(addr, None),
            )
            &&& !has_client(h.clients@, addr) && addr != stun ==> after == before
        },
        (ResponseModel::Pong, ConnectionState::User(u)) => {
            &&& s2 == s
            &&& u.server == Some(addr) ==> after == before.push(
                EffectModel::ArmPing(addr, Some(u.uid@)),
            )
            &&& u.server != Some(addr) ==> after == before
        },
        _ => s2 == s && after == before,
    }
}

/// Whether a peer in state `s` that got packet `p` from `addr` ends in `s2`
/// with effects `e`. A Host drops a client that claimed a wrong uid.
pub open spec fn packet_handled(
    s: ConnectionState,
    stun: PeerAddr,
    addr: PeerAddr,
    p: PacketModel,
    s2: ConnectionState,
    e: Seq<EffectModel>,
) -> bool {
    match p {
        PacketModel::Message(m) => match (s, s2) {
            (ConnectionState::Host(h), ConnectionState::Host(h2)) => exists|
                r: Result<(), PartyaError>,
            | host_message_handled(h, addr, m, h2, Seq::empty(), e, r, true),
            (ConnectionState::User(u), ConnectionState::User(u2)) => user_message_handled(
                u,
                addr,
                m,
                u2,
                Seq::empty(),
                e,
            ),
            _ => false,
        },
        PacketModel::Response(resp) => response_handled(s, stun, addr, resp, s2, Seq::empty(), e),
    }
}

impl User {
    /// The state a peer starts in, and returns to on `Leave`.
    pub open spec fn is_default(&self) -> bool {
        &&& self.server is None
        &&& self.uid@ == blank(5)
        &&& self.password@ == blank(8)
        &&& self.cached_order@ == OrderModel::LeaveServer
        &&& self.connect_to is None
    }
}

impl Default for User {
    fn default() -> (r: User)
        ensures
            r.is_default(),
    {
        let r = User {
            server: None,
            uid: ['\0', '\0', '\0', '\0', '\0'],
            password: ['\0', '\0', '\0', '\0', '\0', '\0', '\0', '\0'],
            cached_order: Order::LeaveServer,
            connect_to: None,
        };
        assert(r.uid@ =~= blank(5));
        assert(r.password@ =~= blank(8));
        r
    }
}

impl Host {
    /// No two clients share an address.
    pub open spec fn wf(&self) -> bool {
        unique_addrs(self.clients@)
    }

    /// A Host just set up with `password`: no lobby yet, no clients, no order.
    pub open spec fn is_fresh(&self, password: Password) -> bool {
        &&& self.lobby_id is None
        &&& self.password == password
        &&& self.clients@.len() == 0
        &&& self.last_order@ == OrderModel::LeaveServer
    }

    /// A Host with `password` and nothing else.
    pub fn new(password: Password) -> (r: Host)
        ensures
            r.is_fresh(password),
            r.wf(),
    {
        Host { lobby_id: None, password, clients: Vec::new(), last_order: Order::LeaveServer }
    }
}

impl ConnectionState {
    pub open spec fn wf(&self) -> bool {
        match self {
            ConnectionState::Host(h) => h.wf(),
            ConnectionState::User(_) => true,
        }
    }
}

/// Sends `order` to every client, one packet each, in the order of `clients`.
fn send_order_to_all(clients: &Vec<(PeerAddr, PlayerUid)>, order: &Order, out: &mut Vec<Effect>)
    ensures
        effects(final(out)@) == effects(old(out)@) + clients@.map_values(
            |c: (PeerAddr, PlayerUid)|
                send_to(c.0, PacketModel::Message(MessageModel::NewOrder(c.1@, order@))),
        ),
{
    let ghost start = effects(out@);
    let ghost f = |c: (PeerAddr, PlayerUid)|
        send_to(c.0, PacketModel::Message(MessageModel::NewOrder(c.1@, order@)));
    let mut i: usize = 0;
    while i < clients.len()
        invariant
            i <= clients@.len(),
            start == effects(old(out)@),
            f == (|c: (PeerAddr, PlayerUid)|
                send_to(c.0, PacketModel::Message(MessageModel::NewOrder(c.1@, order@)))),
            effects(out@) == start + clients@.take(i as int).map_values(f),
        decreases clients@.len() - i,
    {
        let (addr, uid) = clients[i];
        let ghost prev = out@;
        let packet = PacketMessage::NewOrder(uid, order.duplicate()).send();
        let e = Effect::Send(Outgoing { to: addr, packet });
        assert(e@ == f(clients@[i as int]));
        out.push(e);
        proof {
            assert(effects(out@) =~= effects(prev).push(f(clients@[i as int])));
            assert(clients@.take(i + 1).map_values(f) =~= clients@.take(i as int).map_values(f).push(
                f(clients@[i as int]),
            ));
            assert(effects(out@) =~= start + clients@.take(i + 1).map_values(f));
        }
        i = i + 1;
    }
    proof {
        assert(clients@.take(clients@.len() as int) =~= clients@);
    }
}


fn push_send(out: &mut Vec<Effect>, to: PeerAddr, packet: SentPacket)
    ensures
        effects(final(out)@) == effects(old(out)@).push(send_to(to, packet@)),
{
    let ghost prev = out@;
    out.push(Effect::Send(Outgoing { to, packet }));
    proof {
        assert(effects(out@) =~= effects(prev).push(send_to(to, packet@)));
    }
}

fn push_effect(out: &mut Vec<Effect>, e: Effect)
    ensures
        effects(final(out)@) == effects(old(out)@).push(e@),
{
    let ghost prev = out@;
    out.push(e);
    proof {
        assert(effects(out@) =~= effects(prev).push(e@));
    }
}

fn client_position(clients: &Vec<(PeerAddr, PlayerUid)>, addr: PeerAddr) -> (r: Option<usize>)
    ensures
        r matches Some(i) ==> i < clients@.len() && clients@[i as int].0 == addr,
        r is None ==> !has_client(clients@, addr),
{
    let mut i: usize = 0;
    while i < clients.len()
        invariant
            i <= clients@.len(),
            forall|k: int| 0 <= k < i ==> (#[trigger] clients@[k]).0 != addr,
        decreases clients@.len() - i,
    {
        if clients[i].0 == addr {
            return Some(i);
        }
        i = i + 1;
    }
    None
}

/// How many random uids a Host draws for a newcomer before it gives up.
const UID_DRAWS: usize = 16;

fn uid_in_use(clients: &Vec<(PeerAddr, PlayerUid)>, uid: &PlayerUid) -> (r: bool)
    ensures
        r == !uid_unused(clients@, uid@),
{
    let mut i: usize = 0;
    while i < clients.len()
        invariant
            i <= clients@.len(),
            forall|k: int| 0 <= k < i ==> (#[trigger] clients@[k]).1@ != uid@,
        decreases clients@.len() - i,
    {
        if same_chars(&clients[i].1, uid) {
            return true;
        }
        i = i + 1;
    }
    false
}

/// A random uid that no client of `clients` has, drawing at most `UID_DRAWS`
/// times; `None` where every draw was taken.
fn fresh_player_uid(clients: &Vec<(PeerAddr, PlayerUid)>) -> (r: Option<PlayerUid>)
    ensures
        r matches Some(u) ==> uid_unused(clients@, u@) && forall|i: int|
            0 <= i < 5 ==> is_id_char(#[trigger] u@[i]),
{
    let mut n: usize = 0;
    while n < UID_DRAWS
        invariant
            n <= UID_DRAWS,
        decreases UID_DRAWS - n,
    {
        let id = new_player_uid();
        if !uid_in_use(clients, &id) {
            return Some(id);
        }
        n = n + 1;
    }
    None
}

/// Handles a message from `addr` as a Host, queueing effects on `out`.
///
/// `Auth` from a new address is refused with `FailedAuth` on a wrong password,
/// and otherwise registers the address under a fresh random uid that no client
/// has and answers `AuthAccepted`; where every draw of a uid was taken, it is
/// refused with `FailedAuth` too and may be retried. `GetLastOrder` and `Ping`
/// from a registered address must carry its uid, else the result is `IllegalUid` and nothing is sent; with
/// the right uid they are answered with the current order and with `Pong`.
/// `NewClient` nudges the new peer with `VibeCheck`. Anything else is ignored.
pub fn process_message_host(
    addr: PeerAddr,
    msg: PacketMessage,
    host: &mut Host,
    out: &mut Vec<Effect>,
) -> (r: Result<(), PartyaError>)
    requires
        old(host).wf(),
    ensures
        final(host).wf(),
        host_message_handled(
            *old(host),
            addr,
            msg@,
            *final(host),
            effects(old(out)@),
            effects(final(out)@),
            r,
            false,
        ),
{
    let ghost cl = host.clients@;
    let conn = client_position(&host.clients, addr);
    proof {
        if let Some(i) = conn {
            assert forall|j: int| 0 <= j < cl.len() && (#[trigger] cl[j]).0 == addr implies j
                == i by {
                if j < i {
                    assert(cl[j].0 != cl[i as int].0);
                } else if j > i {
                    assert(cl[i as int].0 != cl[j].0);
                }
            }
        }
    }
    match (msg, conn) {
        (PacketMessage::Auth(password), None) => {
            if !same_chars(&password, &host.password) {
                push_send(out, addr, PacketResponse::FailedAuth.send());
                return Ok(());
            }
            let id = match fresh_player_uid(&host.clients) {
                Some(id) => id,
                None => {
                    push_send(out, addr, PacketResponse::FailedAuth.send());
                    return Ok(());
                },
            };
            host.clients.push((addr, id));
            proof {
                assert forall|a: int, b: int|
                    0 <= a < b < host.clients@.len() implies (#[trigger] host.clients@[a]).0
                    != (#[trigger] host.clients@[b]).0 by {
                    if b == cl.len() {
                        assert(cl[a].0 != addr);
                    } else {
                        assert(cl[a].0 != cl[b].0);
                    }
                }
            }
            push_send(out, addr, PacketResponse::AuthAccepted(id, host.password).send());
            Ok(())
        },
        (PacketMessage::GetLastOrder(uid), Some(i)) => {
            let (client_addr, client_uid) = host.clients[i];
            if !same_chars(&uid, &client_uid) {
                return Err(PartyaError::IllegalUid(client_uid, client_addr));
            }
            push_send(
                out,
                addr,
                PacketMessage::NewOrder(uid, host.last_order.duplicate()).send(),
            );
            Ok(())
        },
        (PacketMessage::NewClient(new_addr), None) => {
            push_send(out, new_addr, PacketMessage::VibeCheck.send());
            Ok(())
        },
        (PacketMessage::Ping(Some(uid)), Some(i)) => {
            let (client_addr, client_uid) = host.clients[i];
            if !same_chars(&uid, &client_uid) {
                return Err(PartyaError::IllegalUid(client_uid, client_addr));
            }
            push_send(out, addr, PacketResponse::Pong.send());
            Ok(())
        },
        _ => Ok(()),
    }
}

/// Handles a message from `addr` as a User, queueing effects on `out`: an
/// order for this User's uid is cached and handed to the application, a
/// ping for it is answered. Everything else is ignored.
pub fn process_message_user(
    addr: PeerAddr,
    msg: PacketMessage,
    user: &mut User,
    out: &mut Vec<Effect>,
) -> (r: Result<(), PartyaError>)
    ensures
        r is Ok,
        user_message_handled(
            *old(user),
            addr,
            msg@,
            *final(user),
            effects(old(out)@),
            effects(final(out)@),
        ),
{
    match msg {
        PacketMessage::NewOrder(uid, order) => {
            if same_chars(&uid, &user.uid) {
                push_effect(out, Effect::ExecuteOrder(order.duplicate()));
                user.cached_order = order;
            }
        },
        PacketMessage::Ping(Some(uid)) => {
            if same_chars(&uid, &user.uid) {
                push_send(out, addr, PacketResponse::Pong.send());
            }
        },
        _ => {},
    }
    Ok(())
}

/// Handles a response from `addr`, queueing effects on `out`.
///
/// As a User: `AuthAccepted` with the stored password, while no Host is bound,
/// binds `addr`, takes the uid, asks for the current order and arms a ping;
/// `FoundLobby` sends the stored password to the lobby's Host. As a Host:
/// `CreatedLobby` records the lobby, arms a ping and publishes the lobby as
/// the invite secret. `Pong` from a bound Host, a client or the directory
/// re-arms the ping towards it. Everything else is ignored.
pub fn process_response(
    addr: PeerAddr,
    response: PacketResponse,
    state: &mut ConnectionState,
    out: &mut Vec<Effect>,
    stun_server_addr: PeerAddr,
) -> (r: Result<(), PartyaError>)
    requires
        old(state).wf(),
    ensures
        r is Ok,
        final(state).wf(),
        response_handled(
            *old(state),
            stun_server_addr,
            addr,
            response@,
            *final(state),
            effects(old(out)@),
            effects(final(out)@),
        ),
{
    let ghost before = effects(out@);
    match state {
        ConnectionState::User(user) => match response {
            PacketResponse::AuthAccepted(uid, password) => {
                if same_chars(&user.password, &password) && user.server.is_none() {
                    user.server = Some(addr);
                    user.uid = uid;
                    push_send(out, addr, PacketMessage::GetLastOrder(uid).send());
                    push_effect(out, Effect::ArmPing(addr, Some(uid)));
                    proof {
                        assert(effects(out@) =~= before + seq![
                            send_to(addr, PacketModel::Message(MessageModel::GetLastOrder(uid@))),
                            EffectModel::ArmPing(addr, Some(uid@)),
                        ]);
                    }
                }
            },
            PacketResponse::FoundLobby(lobby_addr) => {
                push_send(out, lobby_addr, PacketMessage::Auth(user.password).send());
            },
            PacketResponse::Pong => {
                if let Some(server) = user.server {
                    if server == addr {
                        push_effect(out, Effect::ArmPing(addr, Some(user.uid)));
                    }
                }
            },
            _ => {},
        },
        ConnectionState::Host(host) => match response {
            PacketResponse::CreatedLobby(lobby_id) => {
                host.lobby_id = Some(lobby_id);
                push_effect(out, Effect::ArmPing(addr, None));
                push_effect(out, Effect::PublishSecret(lobby_id));
                proof {
                    assert(effects(out@) =~= before + seq![
                        EffectModel::ArmPing(addr, None),
                        EffectModel::PublishSecret(lobby_id@),
                    ]);
                }
            },
            PacketResponse::Pong => {
                let ghost cl = host.clients@;
                match client_position(&host.clients, addr) {
                    Some(i) => {
                        proof {
                            assert forall|j: int|
                                0 <= j < cl.len() && (#[trigger] cl[j]).0 == addr implies j
                                == i by {
                                if j < i {
                                    assert(cl[j].0 != cl[i as int].0);
                                } else if j > i {
                                    assert(cl[i as int].0 != cl[j].0);
                                }
                            }
                        }
                        push_effect(out, Effect::ArmPing(addr, Some(host.clients[i].1)));
                    },
                    None => {
                        if addr == stun_server_addr {
                            push_effect(out, Effect::ArmPing(addr, None));
                        }
                    },
                }
            },
            _ => {},
        },
    }
    Ok(())
}

/// Drops the client at `addr`, if there is one; the order of the other
/// clients may change.
pub fn remove_from_host(host: &mut Host, addr: PeerAddr)
    requires
        old(host).wf(),
    ensures
        final(host).wf(),
        client_evicted(old(host).clients@, addr, final(host).clients@),
        final(host).lobby_id == old(host).lobby_id,
        final(host).password == old(host).password,
        final(host).last_order == old(host).last_order,
{
    let ghost s = host.clients@;
    match client_position(&host.clients, addr) {
        None => {
            assert forall|e: (PeerAddr, PlayerUid)| #[trigger] s.contains(e) implies e.0 != addr by {
                let k = choose|k: int| 0 <= k < s.len() && s[k] == e;
                assert(s[k].0 != addr);
            }
        },
        Some(i) => {
            host.clients.swap_remove(i);
            let ghost n = s.len() - 1;
            let ghost t = host.clients@;
            assert(t =~= s.update(i as int, s[n]).drop_last());
            assert forall|e: (PeerAddr, PlayerUid)| #[trigger]
                t.contains(e) implies s.contains(e) && e.0 != addr by {
                let k = choose|k: int| 0 <= k < t.len() && t[k] == e;
                if k == i {
                    assert(s[n] == e);
                } else {
                    assert(s[k] == e);
                }
            }
            assert forall|e: (PeerAddr, PlayerUid)|
                s.contains(e) && e.0 != addr implies #[trigger] t.contains(e) by {
                let k = choose|k: int| 0 <= k < s.len() && s[k] == e;
                assert(k != i);
                if k == n {
                    assert(t[i as int] == e);
                } else {
                    assert(t[k] == e);
                }
            }
            assert forall|a: int, b: int| 0 <= a < b < t.len() implies (#[trigger] t[a]).0
                != (#[trigger] t[b]).0 by {
                let ia = if a == i {
                    n
                } else {
                    a
                };
                let ib = if b == i {
                    n
                } else {
                    b
                };
                assert(s[ia] == t[a]);
                assert(s[ib] == t[b]);
                if ia < ib {
                    assert(s[ia].0 != s[ib].0);
                } else {
                    assert(s[ib].0 != s[ia].0);
                }
            }
        },
    }
}

/// A peer: its role, and where the rendezvous directory is.
#[derive(Debug)]
pub struct Session {
    pub state: ConnectionState,
    pub stun_addr: PeerAddr,
}

impl Session {
    /// A peer that starts as a default User. Where the application was
    /// launched with an order, the User caches it and hands it over at once.
    pub fn new(stun_addr: PeerAddr, order_overwrite: Option<Order>) -> (r: (Session, Vec<Effect>))
        ensures
            r.0.stun_addr == stun_addr,
            r.0.state matches ConnectionState::User(u) && u.server is None && u.uid@ == blank(5)
                && u.password@ == blank(8) && u.connect_to is None,
            order_overwrite is None ==> (r.0.state matches ConnectionState::User(u)
                && u.is_default()) && effects(r.1@) == Seq::<EffectModel>::empty(),
            order_overwrite matches Some(o) ==> (r.0.state matches ConnectionState::User(u)
                && u.cached_order@ == o@) && effects(r.1@) == seq![EffectModel::ExecuteOrder(o@)],
    {
        let mut user = User::default();
        let mut out: Vec<Effect> = Vec::new();
        if let Some(o) = order_overwrite {
            out.push(Effect::ExecuteOrder(o.duplicate()));
            user.cached_order = o;
        }
        proof {
            assert(effects(out@) =~= match order_overwrite {
                Some(o) => seq![EffectModel::ExecuteOrder(o@)],
                None => Seq::<EffectModel>::empty(),
            });
        }
        (Session { state: ConnectionState::User(user), stun_addr }, out)
    }

    /// Handles one local command and returns the effects.
    ///
    /// `ConnectToLobby` (as a User) stores the password and asks the directory
    /// for the lobby; `BecomeHost` (as a User) starts a fresh Host and asks
    /// for a lobby; `BecomeUser` (as a Host) returns to the default User and
    /// withdraws the invite secret; `Leave` always returns to the default User;
    /// `NewOrder` (as a Host) records the order and sends it to every client;
    /// `GetCachedOrder` (as a User) hands the cached order to the application.
    /// Any other command, or one given in the other role, changes nothing.
    pub fn handle_local(&mut self, msg: LocalMessage) -> (r: Vec<Effect>)
        requires
            old(self).state.wf(),
        ensures
            final(self).state.wf(),
            final(self).stun_addr == old(self).stun_addr,
            ({
                let stun = old(self).stun_addr;
                let e = effects(r@);
                match (msg, old(self).state) {
                    (LocalMessage::ConnectToLobby(id, password), ConnectionState::User(u)) => {
                        &&& final(self).state matches ConnectionState::User(u2) && u2.password
                            == password && u2.server == u.server && u2.uid == u.uid
                            && u2.cached_order == u.cached_order && u2.connect_to == u.connect_to
                        &&& e == seq![
                            send_to(stun, PacketModel::Message(MessageModel::FindLobby(id@))),
                        ]
                    },
                    (LocalMessage::BecomeHost(password), ConnectionState::User(_)) => {
                        &&& final(self).state matches ConnectionState::Host(h) && h.is_fresh(
                            password,
                        )
                        &&& e == seq![send_to(stun, PacketModel::Message(MessageModel::CreateLobby))]
                    },
                    (LocalMessage::BecomeUser, ConnectionState::Host(_)) => {
                        &&& final(self).state matches ConnectionState::User(u) && u.is_default()
                        &&& e == seq![EffectModel::ClearSecret]
                    },
                    (LocalMessage::Leave, _) => {
                        &&& final(self).state matches ConnectionState::User(u) && u.is_default()
                        &&& e.len() == 0
                    },
                    (LocalMessage::NewOrder(order), ConnectionState::Host(h)) => {
                        &&& final(self).state matches ConnectionState::Host(h2) && h2.last_order@
                            == order@ && h2.lobby_id == h.lobby_id && h2.password == h.password
                            && h2.clients == h.clients
                        &&& e == h.clients@.map_values(
                            |c: (PeerAddr, PlayerUid)|
                                send_to(
                                    c.0,
                                    PacketModel::Message(MessageModel::NewOrder(c.1@, order@)),
                                ),
                        )
                    },
                    (LocalMessage::GetCachedOrder, ConnectionState::User(u)) => {
                        &&& final(self).state == old(self).state
                        &&& e == seq![EffectModel::ExecuteOrder(u.cached_order@)]
                    },
                    _ => {
                        &&& final(self).state == old(self).state
                        &&& e.len() == 0
                    },
                }
            }),
    {
        let mut out: Vec<Effect> = Vec::new();
        let stun = self.stun_addr;
        match msg {
            LocalMessage::ConnectToLobby(lobby_id, password) => {
                if let ConnectionState::User(user) = &mut self.state {
                    user.password = password;
                    out.push(
                        Effect::Send(
                            Outgoing { to: stun, packet: PacketMessage::FindLobby(lobby_id).send() },
                        ),
                    );
                }
            },
            LocalMessage::BecomeHost(password) => {
                if let ConnectionState::User(_) = &self.state {
                    self.state = ConnectionState::Host(Host::new(password));
                    out.push(
                        Effect::Send(Outgoing { to: stun, packet: PacketMessage::CreateLobby.send() }),
                    );
                }
            },
            LocalMessage::BecomeUser => {
                if let ConnectionState::Host(_) = &self.state {
                    self.state = ConnectionState::User(User::default());
                    out.push(Effect::ClearSecret);
                }
            },
            LocalMessage::Leave => {
                self.state = ConnectionState::User(User::default());
            },
            LocalMessage::NewOrder(order) => {
                if let ConnectionState::Host(host) = &mut self.state {
                    send_order_to_all(&host.clients, &order, &mut out);
                    host.last_order = order;
                }
            },
            LocalMessage::GetCachedOrder => {
                if let ConnectionState::User(user) = &self.state {
                    out.push(Effect::ExecuteOrder(user.cached_order.duplicate()));
                }
            },
            _ => {},
        }
        proof {
            assert(effects(out@) =~= match (msg, old(self).state) {
                (LocalMessage::ConnectToLobby(id, _), ConnectionState::User(_)) => seq![
                    send_to(stun, PacketModel::Message(MessageModel::FindLobby(id@))),
                ],
                (LocalMessage::BecomeHost(_), ConnectionState::User(_)) => seq![
                    send_to(stun, PacketModel::Message(MessageModel::CreateLobby)),
                ],
                (LocalMessage::BecomeUser, ConnectionState::Host(_)) => seq![
                    EffectModel::ClearSecret,
                ],
                (LocalMessage::NewOrder(order), ConnectionState::Host(h)) => h.clients@.map_values(
                    |c: (PeerAddr, PlayerUid)|
                        send_to(c.0, PacketModel::Message(MessageModel::NewOrder(c.1@, order@))),
                ),
                (LocalMessage::GetCachedOrder, ConnectionState::User(u)) => seq![
                    EffectModel::ExecuteOrder(u.cached_order@),
                ],
                _ => Seq::<EffectModel>::empty(),
            });
        }
        out
    }

    /// Handles one datagram from `addr` and returns the effects. Bytes that
    /// are no packet change nothing and cause nothing.
    pub fn handle_packet(&mut self, addr: PeerAddr, payload: &[u8]) -> (r: Vec<Effect>)
        requires
            old(self).state.wf(),
        ensures
            final(self).state.wf(),
            final(self).stun_addr == old(self).stun_addr,
            (forall|p: PacketModel| packet_fits(p) ==> enc_packet(p) != payload@) ==> {
                &&& final(self).state == old(self).state
                &&& r@.len() == 0
            },
            forall|p: PacketModel|
                packet_fits(p) && enc_packet(p) == payload@ ==> packet_handled(
                    old(self).state,
                    old(self).stun_addr,
                    addr,
                    p,
                    final(self).state,
                    effects(r@),
                ),
    {
        let mut out: Vec<Effect> = Vec::new();
        let packet = match decode(payload) {
            Err(_) => return out,
            Ok(p) => p,
        };
        proof {
            assert forall|p: PacketModel| packet_fits(p) && enc_packet(p) == payload@ implies p
                == packet@ by {
                lemma_round_trip(packet@, p);
            }
            assert(effects(out@) =~= Seq::<EffectModel>::empty());
        }
        let stun = self.stun_addr;
        match packet {
            SentPacket::PacketMessage(msg) => match &mut self.state {
                ConnectionState::Host(host) => {
                    let ghost h0 = *host;
                    let ghost m = msg@;
                    let result = process_message_host(addr, msg, host, &mut out);
                    let ghost h1 = *host;
                    if let Err(PartyaError::IllegalUid(_, client_addr)) = result {
                        remove_from_host(host, client_addr);
                    }
                    proof {
                        assert(host_message_handled(
                            h0,
                            addr,
                            m,
                            *host,
                            Seq::empty(),
                            effects(out@),
                            result,
                            true,
                        ));
                    }
                },
                ConnectionState::User(user) => {
                    let _ = process_message_user(addr, msg, user, &mut out);
                },
            },
            SentPacket::PacketResponse(response) => {
                let _ = process_response(addr, response, &mut self.state, &mut out, stun);
            },
        }
        out
    }

    /// Handles the transport's report that `addr` disconnected or timed out.
    /// A User loses its Host if that was `addr`; a Host drops the client at
    /// `addr`, and where `addr` is the directory, forgets its lobby and
    /// withdraws the invite secret.
    pub fn handle_disconnect(&mut self, addr: PeerAddr) -> (r: Vec<Effect>)
        requires
            old(self).state.wf(),
        ensures
            final(self).state.wf(),
            final(self).stun_addr == old(self).stun_addr,
            match old(self).state {
                ConnectionState::User(u) => {
                    &&& final(self).state matches ConnectionState::User(u2) && (if u.server == Some(
                        addr,
                    ) {
                        u2.server is None
                    } else {
                        u2.server == u.server
                    }) && u2.uid == u.uid && u2.password == u.password && u2.cached_order
                        == u.cached_order && u2.connect_to == u.connect_to
                    &&& r@.len() == 0
                },
                ConnectionState::Host(h) => {
                    &&& final(self).state matches ConnectionState::Host(h2) && client_evicted(
                        h.clients@,
                        addr,
                        h2.clients@,
                    ) && h2.password == h.password && h2.last_order == h.last_order && (if addr
                        == old(self).stun_addr {
                        h2.lobby_id is None
                    } else {
                        h2.lobby_id == h.lobby_id
                    })
                    &&& addr == old(self).stun_addr ==> effects(r@) == seq![
                        EffectModel::ClearSecret,
                    ]
                    &&& addr != old(self).stun_addr ==> r@.len() == 0
                },
            },
    {
        let mut out: Vec<Effect> = Vec::new();
        let stun = self.stun_addr;
        match &mut self.state {
            ConnectionState::User(user) => {
                if let Some(server) = user.server {
                    if server == addr {
                        user.server = None;
                    }
                }
            },
            ConnectionState::Host(host) => {
                remove_from_host(host, addr);
                if addr == stun {
                    host.lobby_id = None;
                    push_effect(&mut out, Effect::ClearSecret);
                    proof {
                        assert(effects(out@) =~= seq![EffectModel::ClearSecret]);
                    }
                }
            },
        }
        out
    }
}

} // verus!
