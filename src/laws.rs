//! Properties of the directory and of the peer session that hold for every
//! state and input.
use vstd::prelude::*;
use crate::session::{
    ConnectionState, EffectModel, client_evicted, has_client, packet_handled, send_to, uid_unused,
};
use crate::ids::is_id_char;
use crate::rendezvous::{has_id, message_handled, owns_lobby};
use crate::wire::{LobbyUid, MessageModel, PacketModel, PeerAddr, ResponseModel};

verus! {

/// A wrong password never changes a Host's clients; a newcomer that sends one
/// is answered with `FailedAuth` and nothing else.
pub proof fn lemma_wrong_password(
    s: ConnectionState,
    stun: PeerAddr,
    addr: PeerAddr,
    password: Seq<char>,
    s2: ConnectionState,
    e: Seq<EffectModel>,
)
    requires
        s is Host,
        packet_handled(s, stun, addr, PacketModel::Message(MessageModel::Auth(password)), s2, e),
        password != s->Host_0.password@,
    ensures
        s2 is Host,
        s2->Host_0.clients@ == s->Host_0.clients@,
        !has_client(s->Host_0.clients@, addr) ==> e == seq![
            send_to(addr, PacketModel::Response(ResponseModel::FailedAuth)),
        ],
{
}

/// The right password from a newcomer adds exactly one client, at its
/// address and under a uid that no other client has; only where every random
/// draw of a uid was already taken is it refused with `FailedAuth` instead.
/// From an address that is already a client it adds none.
pub proof fn lemma_right_password(
    s: ConnectionState,
    stun: PeerAddr,
    addr: PeerAddr,
    s2: ConnectionState,
    e: Seq<EffectModel>,
)
    requires
        s is Host,
        packet_handled(
            s,
            stun,
            addr,
            PacketModel::Message(MessageModel::Auth(s->Host_0.password@)),
            s2,
            e,
        ),
    ensures
        s2 is Host,
        !has_client(s->Host_0.clients@, addr) ==> {
            ||| {
                &&& s2->Host_0.clients@.len() == s->Host_0.clients@.len() + 1
                &&& s2->Host_0.clients@.drop_last() == s->Host_0.clients@
                &&& s2->Host_0.clients@.last().0 == addr
                &&& uid_unused(s->Host_0.clients@, s2->Host_0.clients@.last().1@)
            }
            ||| {
                &&& s2->Host_0.clients@ == s->Host_0.clients@
                &&& e == seq![send_to(addr, PacketModel::Response(ResponseModel::FailedAuth))]
            }
        },
        has_client(s->Host_0.clients@, addr) ==> s2->Host_0.clients@ == s->Host_0.clients@,
{
    let cl = s->Host_0.clients@;
    let h2 = s2->Host_0;
    if !has_client(cl, addr) && h2.clients@.len() == cl.len() + 1 {
        assert(h2.clients@.drop_last() =~= cl);
    }
}

/// A `GetLastOrder` or `Ping` that claims a uid other than the one registered
/// for its sender removes that sender from the Host's clients.
pub proof fn lemma_wrong_uid_evicts(
    s: ConnectionState,
    stun: PeerAddr,
    addr: PeerAddr,
    m: MessageModel,
    s2: ConnectionState,
    e: Seq<EffectModel>,
    i: int,
)
    requires
        s is Host,
        m is GetLastOrder || m is Ping,
        0 <= i < s->Host_0.clients@.len(),
        s->Host_0.clients@[i].0 == addr,
        match m {
            MessageModel::GetLastOrder(uid) => uid != s->Host_0.clients@[i].1@,
            MessageModel::Ping(uid) => uid matches Some(u) && u != s->Host_0.clients@[i].1@,
            _ => false,
        },
        packet_handled(s, stun, addr, PacketModel::Message(m), s2, e),
    ensures
        s2 is Host,
        !has_client(s2->Host_0.clients@, addr),
        e.len() == 0,
{
    let cl = s->Host_0.clients@;
    let h2 = s2->Host_0;
    assert(has_client(cl, addr));
    assert(client_evicted(cl, addr, h2.clients@));
    if has_client(h2.clients@, addr) {
        let k = choose|k: int| 0 <= k < h2.clients@.len() && (#[trigger] h2.clients@[k]).0 == addr;
        assert(h2.clients@.contains(h2.clients@[k]));
    }
}

/// Asking the directory for a lobby that no one registered is answered with
/// `NoLobby` for that identifier, and changes nothing.
pub proof fn lemma_unknown_lobby(
    conns: Seq<(LobbyUid, PeerAddr)>,
    addr: PeerAddr,
    id: Seq<char>,
    conns2: Seq<(LobbyUid, PeerAddr)>,
    before: Seq<(PeerAddr, PacketModel)>,
    after: Seq<(PeerAddr, PacketModel)>,
)
    requires
        !has_id(conns, id),
        message_handled(conns, addr, MessageModel::FindLobby(id), conns2, before, after),
    ensures
        conns2 == conns,
        after == before.push((addr, PacketModel::Response(ResponseModel::NoLobby(id)))),
{
    assert(before + seq![(addr, PacketModel::Response(ResponseModel::NoLobby(id)))] =~= before.push(
        (addr, PacketModel::Response(ResponseModel::NoLobby(id))),
    ));
}

/// A new lobby gets an identifier of eight characters from the URL-safe
/// alphabet, owned by the requester, and the requester is told it.
pub proof fn lemma_created_lobby(
    conns: Seq<(LobbyUid, PeerAddr)>,
    addr: PeerAddr,
    conns2: Seq<(LobbyUid, PeerAddr)>,
    before: Seq<(PeerAddr, PacketModel)>,
    after: Seq<(PeerAddr, PacketModel)>,
)
    requires
        !owns_lobby(conns, addr),
        message_handled(conns, addr, MessageModel::CreateLobby, conns2, before, after),
    ensures
        conns2.len() == conns.len() + 1,
        conns2.last().1 == addr,
        conns2.last().0@.len() == 8,
        forall|i: int| 0 <= i < 8 ==> is_id_char(#[trigger] conns2.last().0@[i]),
        after == before.push(
            (addr, PacketModel::Response(ResponseModel::CreatedLobby(conns2.last().0@))),
        ),
{
    let id = conns2.last().0;
    assert(before + seq![(addr, PacketModel::Response(ResponseModel::CreatedLobby(id@)))]
        =~= before.push((addr, PacketModel::Response(ResponseModel::CreatedLobby(id@)))));
}

} // verus!
