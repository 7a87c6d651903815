//! The rendezvous directory: which address owns which lobby.
use vstd::prelude::*;
use crate::codec::{decode, enc_packet, lemma_round_trip, packet_fits};
use crate::ids::{is_id_char, new_lobby_uid};
use crate::wire::{
    LobbyUid, MessageModel, Outgoing, PacketMessage, PacketModel, PacketResponse, PartyaError,
    PeerAddr, ResponseModel, SentPacket, same_chars, sent,
};

verus! {

/// The directory of lobbies, one entry per owning address.
#[derive(Debug)]
pub struct Server {
    lobby_connections: Vec<(LobbyUid, PeerAddr)>,
}

/// Whether `addr` owns an entry of `conns`.
pub open spec fn owns_lobby(conns: Seq<(LobbyUid, PeerAddr)>, addr: PeerAddr) -> bool {
    exists|i: int| 0 <= i < conns.len() && (#[trigger] conns[i]).1 == addr
}

/// Whether `j` is the first entry of `conns` for lobby `id`.
pub open spec fn first_with_id(conns: Seq<(LobbyUid, PeerAddr)>, id: Seq<char>, j: int) -> bool {
    &&& 0 <= j < conns.len()
    &&& conns[j].0@ == id
    &&& forall|k: int| 0 <= k < j ==> (#[trigger] conns[k]).0@ != id
}

/// Whether some entry of `conns` is for lobby `id`.
pub open spec fn has_id(conns: Seq<(LobbyUid, PeerAddr)>, id: Seq<char>) -> bool {
    exists|i: int| 0 <= i < conns.len() && (#[trigger] conns[i]).0@ == id
}

/// Whether the directory refuses message `m` from `addr`: a lobby request
/// from an owner, a ping from anyone else, and anything that is neither.
pub open spec fn is_illegal_message(
    conns: Seq<(LobbyUid, PeerAddr)>,
    addr: PeerAddr,
    m: MessageModel,
) -> bool {
    match m {
        MessageModel::FindLobby(_) => owns_lobby(conns, addr),
        MessageModel::CreateLobby => owns_lobby(conns, addr),
        MessageModel::Ping(_) => !owns_lobby(conns, addr),
        _ => true,
    }
}

/// Whether the directory went from `conns` to `conns2`, and its queue of
/// replies from `before` to `after`, by handling the legal message `m` from `addr`.
pub open spec fn message_handled(
    conns: Seq<(LobbyUid, PeerAddr)>,
    addr: PeerAddr,
    m: MessageModel,
    conns2: Seq<(LobbyUid, PeerAddr)>,
    before: Seq<(PeerAddr, PacketModel)>,
    after: Seq<(PeerAddr, PacketModel)>,
) -> bool {
    match m {
        MessageModel::FindLobby(id) => {
            &&& conns2 == conns
            &&& has_id(conns, id) ==> exists|j: int|
                first_with_id(conns, id, j) && after == before + seq![
                    (conns[j].1, PacketModel::Message(MessageModel::NewClient(addr))),
                    (addr, PacketModel::Response(ResponseModel::FoundLobby(conns[j].1))),
                ]
            &&& !has_id(conns, id) ==> after == before + seq![
                (addr, PacketModel::Response(ResponseModel::NoLobby(id))),
            ]
        },
        MessageModel::CreateLobby => {
            let id = conns2.last().0;
            &&& conns2 == conns.push((id, addr))
            &&& forall|i: int| 0 <= i < 8 ==> is_id_char(#[trigger] id@[i])
            &&& after == before + seq![
                (addr, PacketModel::Response(ResponseModel::CreatedLobby(id@))),
            ]
        },
        MessageModel::Ping(_) => {
            &&& conns2 == conns
            &&& after == before + seq![(addr, PacketModel::Response(ResponseModel::Pong))]
        },
        _ => false,
    }
}

/// Whether `conns2` holds the entries of `conns` but the one of `addr`.
pub open spec fn evicted(
    conns: Seq<(LobbyUid, PeerAddr)>,
    addr: PeerAddr,
    conns2: Seq<(LobbyUid, PeerAddr)>,
) -> bool {
    &&& forall|e: (LobbyUid, PeerAddr)|
        #[trigger] conns2.contains(e) <==> (conns.contains(e) && e.1 != addr)
    &&& conns2.len() == if owns_lobby(conns, addr) {
        conns.len() - 1
    } else {
        conns.len() as int
    }
}

impl Server {
    /// The directory's entries.
    pub closed spec fn entries(&self) -> Seq<(LobbyUid, PeerAddr)> {
        self.lobby_connections@
    }

    /// Each address owns at most one lobby.
    pub open spec fn wf(&self) -> bool {
        forall|i: int, j: int|
            0 <= i < j < self.entries().len() ==> (#[trigger] self.entries()[i]).1
                != (#[trigger] self.entries()[j]).1
    }

    /// An empty directory.
    pub fn new() -> (r: Server)
        ensures
            r.wf(),
            r.entries().len() == 0,
    {
        Server { lobby_connections: Vec::new() }
    }

    /// The directory's entries, lobby and owner.
    pub fn lobbies(&self) -> (r: &Vec<(LobbyUid, PeerAddr)>)
        ensures
            r@ == self.entries(),
    {
        &self.lobby_connections
    }

    fn position_of_addr(&self, addr: PeerAddr) -> (r: Option<usize>)
        ensures
            r matches Some(i) ==> i < self.entries().len() && self.entries()[i as int].1 == addr,
            r is None ==> !owns_lobby(self.entries(), addr),
    {
        let mut i: usize = 0;
        while i < self.lobby_connections.len()
            invariant
                i <= self.entries().len(),
                forall|k: int| 0 <= k < i ==> (#[trigger] self.entries()[k]).1 != addr,
            decreases self.entries().len() - i,
        {
            if self.lobby_connections[i].1 == addr {
                return Some(i);
            }
            i = i + 1;
        }
        None
    }

    fn position_of_id(&self, id: &LobbyUid) -> (r: Option<usize>)
        ensures
            r matches Some(j) ==> first_with_id(self.entries(), id@, j as int),
            r is None ==> !has_id(self.entries(), id@),
    {
        let mut i: usize = 0;
        while i < self.lobby_connections.len()
            invariant
                i <= self.entries().len(),
                forall|k: int| 0 <= k < i ==> (#[trigger] self.entries()[k]).0@ != id@,
            decreases self.entries().len() - i,
        {
            if same_chars(&self.lobby_connections[i].0, id) {
                return Some(i);
            }
            i = i + 1;
        }
        None
    }

    /// Handles a message from `addr`, queueing replies on `out`.
    ///
    /// `FindLobby` from an address without a lobby introduces the two sides to
    /// each other, or answers `NoLobby`; `CreateLobby` from such an address
    /// records a fresh identifier for it; `Ping` from an owner is answered
    /// with `Pong`. Everything else is an illegal packet, and nothing changes.
    pub fn process_message(
        &mut self,
        addr: PeerAddr,
        msg: PacketMessage,
        out: &mut Vec<Outgoing>,
    ) -> (r: Result<(), PartyaError>)
        requires
            old(self).wf(),
        ensures
            final(self).wf(),
            is_illegal_message(old(self).entries(), addr, msg@) ==> {
                &&& r matches Err(PartyaError::IllegalPacket(p)) && p@ == PacketModel::Message(
                    msg@,
                )
                &&& final(self).entries() == old(self).entries()
                &&& final(out)@ == old(out)@
            },
            !is_illegal_message(old(self).entries(), addr, msg@) ==> {
                &&& r is Ok
                &&& message_handled(
                    old(self).entries(),
                    addr,
                    msg@,
                    final(self).entries(),
                    sent(old(out)@),
                    sent(final(out)@),
                )
            },
    {
        let ghost old_out = out@;
        let lobby = self.position_of_addr(addr);
        match (msg, lobby) {
            (PacketMessage::FindLobby(lobby_id), None) => {
                match self.position_of_id(&lobby_id) {
                    None => {
                        out.push(
                            Outgoing {
                                to: addr,
                                packet: PacketResponse::NoLobby(lobby_id).send(),
                            },
                        );
                        assert(sent(out@) =~= sent(old_out) + seq![
                            (addr, PacketModel::Response(ResponseModel::NoLobby(lobby_id@))),
                        ]);
                    },
                    Some(j) => {
                        let owner = self.lobby_connections[j].1;
                        out.push(
                            Outgoing { to: owner, packet: PacketMessage::NewClient(addr).send() },
                        );
                        out.push(
                            Outgoing { to: addr, packet: PacketResponse::FoundLobby(owner).send() },
                        );
                        assert(sent(out@) =~= sent(old_out) + seq![
                            (owner, PacketModel::Message(MessageModel::NewClient(addr))),
                            (addr, PacketModel::Response(ResponseModel::FoundLobby(owner))),
                        ]);
                    },
                }
                Ok(())
            },
            (PacketMessage::CreateLobby, None) => {
                let id = new_lobby_uid();
                self.lobby_connections.push((id, addr));
                out.push(Outgoing { to: addr, packet: PacketResponse::CreatedLobby(id).send() });
                assert(sent(out@) =~= sent(old_out) + seq![
                    (addr, PacketModel::Response(ResponseModel::CreatedLobby(id@))),
                ]);
                Ok(())
            },
            (PacketMessage::Ping(_), Some(_)) => {
                out.push(Outgoing { to: addr, packet: PacketResponse::Pong.send() });
                assert(sent(out@) =~= sent(old_out) + seq![
                    (addr, PacketModel::Response(ResponseModel::Pong)),
                ]);
                Ok(())
            },
            (m, _) => Err(PartyaError::IllegalPacket(Box::new(m.send()))),
        }
    }

    /// Handles a response from `addr`: a `Pong` is accepted, anything else is
    /// an illegal packet. The directory does not change.
    pub fn process_response(&self, addr: PeerAddr, response: PacketResponse) -> (r: Result<
        (),
        PartyaError,
    >)
        ensures
            response@ is Pong ==> r is Ok,
            !(response@ is Pong) ==> (r matches Err(PartyaError::IllegalPacket(p)) && p@
                == PacketModel::Response(response@)),
    {
        match response {
            PacketResponse::Pong => Ok(()),
            r => Err(PartyaError::IllegalPacket(Box::new(r.send()))),
        }
    }

    /// Forgets the lobby that `addr` owns, if any; the order of the other
    /// entries may change.
    pub fn remove_from_server(&mut self, addr: PeerAddr)
        requires
            old(self).wf(),
        ensures
            final(self).wf(),
            evicted(old(self).entries(), addr, final(self).entries()),
    {
        let ghost s = self.entries();
        match self.position_of_addr(addr) {
            None => {
                assert forall|e: (LobbyUid, PeerAddr)| #[trigger]
                    s.contains(e) implies e.1 != addr by {
                    let k = choose|k: int| 0 <= k < s.len() && s[k] == e;
                    assert(s[k].1 != addr);
                }
            },
            Some(i) => {
                self.lobby_connections.swap_remove(i);
                let ghost n = s.len() - 1;
                let ghost t = self.entries();
                assert(t =~= s.update(i as int, s[n]).drop_last());
                assert forall|e: (LobbyUid, PeerAddr)| #[trigger]
                    t.contains(e) implies s.contains(e) && e.1 != addr by {
                    let k = choose|k: int| 0 <= k < t.len() && t[k] == e;
                    if k == i {
                        assert(s[n] == e);
                    } else {
                        assert(s[k] == e);
                    }
                }
                assert forall|e: (LobbyUid, PeerAddr)|
                    s.contains(e) && e.1 != addr implies #[trigger] t.contains(e) by {
                    let k = choose|k: int| 0 <= k < s.len() && s[k] == e;
                    assert(k != i);
                    if k == n {
                        assert(t[i as int] == e);
                    } else {
                        assert(t[k] == e);
                    }
                }
                assert forall|a: int, b: int| 0 <= a < b < t.len() implies (#[trigger] t[a]).1
                    != (#[trigger] t[b]).1 by {
                    let ia = if a == i {
                        n
                    } else {
                        a
                    };
                    let ib = if b == i {
                        n
                    } else {
                        b
                    };
                    assert(s[ia] == t[a]);
                    assert(s[ib] == t[b]);
                    if ia < ib {
                        assert(s[ia].1 != s[ib].1);
                    } else {
                        assert(s[ib].1 != s[ia].1);
                    }
                }
            },
        }
    }

    /// Handles one datagram from `addr` and returns the replies. Bytes that are
    /// no packet change nothing and get no reply; an illegal packet evicts
    /// `addr`, as a disconnection would.
    pub fn handle_packet(&mut self, addr: PeerAddr, payload: &[u8]) -> (r: Vec<Outgoing>)
        requires
            old(self).wf(),
        ensures
            final(self).wf(),
            (forall|p: PacketModel| packet_fits(p) ==> enc_packet(p) != payload@) ==> {
                &&& final(self).entries() == old(self).entries()
                &&& r@.len() == 0
            },
            forall|p: PacketModel|
                packet_fits(p) && enc_packet(p) == payload@ ==> match p {
                    PacketModel::Message(m) => if is_illegal_message(old(self).entries(), addr, m) {
                        evicted(old(self).entries(), addr, final(self).entries()) && r@.len() == 0
                    } else {
                        message_handled(
                            old(self).entries(),
                            addr,
                            m,
                            final(self).entries(),
                            Seq::empty(),
                            sent(r@),
                        )
                    },
                    PacketModel::Response(resp) => if resp is Pong {
                        final(self).entries() == old(self).entries() && r@.len() == 0
                    } else {
                        evicted(old(self).entries(), addr, final(self).entries()) && r@.len() == 0
                    },
                },
    {
        let mut out: Vec<Outgoing> = Vec::new();
        let packet = match decode(payload) {
            Err(_) => return out,
            Ok(p) => p,
        };
        proof {
            assert forall|p: PacketModel| packet_fits(p) && enc_packet(p) == payload@ implies p
                == packet@ by {
                lemma_round_trip(packet@, p);
            }
            assert(sent(out@) =~= Seq::empty());
        }
        let result = match packet {
            SentPacket::PacketMessage(msg) => self.process_message(addr, msg, &mut out),
            SentPacket::PacketResponse(response) => self.process_response(addr, response),
        };
        if let Err(PartyaError::IllegalPacket(_)) = result {
            self.remove_from_server(addr);
        }
        out
    }

    /// Forgets what a disconnected or timed-out `addr` owned.
    pub fn handle_disconnect(&mut self, addr: PeerAddr)
        requires
            old(self).wf(),
        ensures
            final(self).wf(),
            evicted(old(self).entries(), addr, final(self).entries()),
    {
        self.remove_from_server(addr);
    }
}

} // verus!
