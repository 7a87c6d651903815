use compartya::codec::{decode, encode};
use compartya::rendezvous::Server;
use compartya::wire::{Outgoing, PacketMessage, PacketResponse, PartyaError, PeerAddr, SentPacket};

fn addr(last: u8, port: u16) -> PeerAddr {
    PeerAddr::V4(u32::from_be_bytes([10, 0, 0, last]), port)
}

fn show(p: &SentPacket) -> String {
    format!("{:?}", p)
}

fn create(server: &mut Server, owner: PeerAddr) -> [char; 8] {
    let replies = server.handle_packet(owner, &encode(&PacketMessage::CreateLobby.send()));
    assert_eq!(replies.len(), 1);
    assert_eq!(replies[0].to, owner);
    match &replies[0].packet {
        SentPacket::PacketResponse(PacketResponse::CreatedLobby(id)) => *id,
        other => panic!("unexpected {:?}", other),
    }
}

fn is_safe(c: char) -> bool {
    c.is_ascii_alphanumeric() || c == '_' || c == '-'
}

#[test]
fn unknown_lobby_yields_no_lobby() {
    let mut server = Server::new();
    let id = ['n', 'o', 'p', 'e', 'n', 'o', 'p', 'e'];
    let mut out: Vec<Outgoing> = Vec::new();
    let r = server.process_message(addr(1, 5), PacketMessage::FindLobby(id), &mut out);
    assert!(r.is_ok());
    assert_eq!(out.len(), 1);
    assert_eq!(out[0].to, addr(1, 5));
    assert_eq!(show(&out[0].packet), show(&PacketResponse::NoLobby(id).send()));
    assert_eq!(server.lobbies().len(), 0);
}

#[test]
fn create_lobby_gives_eight_safe_characters() {
    let mut server = Server::new();
    let id = create(&mut server, addr(1, 5));
    assert_eq!(id.len(), 8);
    assert!(id.iter().all(|c| is_safe(*c)));
    assert_eq!(server.lobbies().len(), 1);
    assert_eq!(server.lobbies()[0], (id, addr(1, 5)));
}

#[test]
fn two_lobbies_get_distinct_identifiers() {
    let mut server = Server::new();
    let a = create(&mut server, addr(1, 5));
    let b = create(&mut server, addr(2, 5));
    assert_ne!(a, b);
    assert_eq!(server.lobbies().len(), 2);
}

#[test]
fn find_lobby_introduces_both_sides() {
    let mut server = Server::new();
    let host = addr(1, 5);
    let user = addr(2, 6);
    let id = create(&mut server, host);
    let replies = server.handle_packet(user, &encode(&PacketMessage::FindLobby(id).send()));
    assert_eq!(replies.len(), 2);
    assert_eq!(replies[0].to, host);
    assert_eq!(show(&replies[0].packet), show(&PacketMessage::NewClient(user).send()));
    assert_eq!(replies[1].to, user);
    assert_eq!(show(&replies[1].packet), show(&PacketResponse::FoundLobby(host).send()));
}

#[test]
fn ping_from_owner_gets_pong_and_from_others_nothing() {
    let mut out: Vec<Outgoing> = Vec::new();
    let r = Server::new().process_message(addr(9, 9), PacketMessage::Ping(None), &mut out);
    assert!(matches!(r, Err(PartyaError::IllegalPacket(_))));
    let mut server = Server::new();
    let host = addr(1, 5);
    create(&mut server, host);
    let ping = encode(&PacketMessage::Ping(None).send());
    let replies = server.handle_packet(host, &ping);
    assert_eq!(replies.len(), 1);
    assert_eq!(show(&replies[0].packet), show(&PacketResponse::Pong.send()));
    assert_eq!(server.handle_packet(addr(9, 9), &ping).len(), 0);
}

#[test]
fn illegal_packet_evicts_sender() {
    let mut server = Server::new();
    let host = addr(1, 5);
    create(&mut server, host);
    // A second CreateLobby from an owner is illegal.
    let replies = server.handle_packet(host, &encode(&PacketMessage::CreateLobby.send()));
    assert_eq!(replies.len(), 0);
    assert_eq!(server.lobbies().len(), 0);
}

#[test]
fn illegal_message_is_reported() {
    let mut server = Server::new();
    let mut out: Vec<Outgoing> = Vec::new();
    let r = server.process_message(addr(1, 1), PacketMessage::VibeCheck, &mut out);
    assert!(matches!(r, Err(PartyaError::IllegalPacket(_))));
    assert!(out.is_empty());
    assert!(server.process_response(addr(1, 1), PacketResponse::Pong).is_ok());
    assert!(matches!(
        server.process_response(addr(1, 1), PacketResponse::FailedAuth),
        Err(PartyaError::IllegalPacket(_))
    ));
}

#[test]
fn response_other_than_pong_evicts() {
    let mut server = Server::new();
    let host = addr(1, 5);
    create(&mut server, host);
    let replies = server.handle_packet(host, &encode(&PacketResponse::FailedAuth.send()));
    assert!(replies.is_empty());
    assert_eq!(server.lobbies().len(), 0);
}

#[test]
fn garbage_is_ignored() {
    let mut server = Server::new();
    let host = addr(1, 5);
    create(&mut server, host);
    assert!(server.handle_packet(host, &[0xde, 0xad]).is_empty());
    assert_eq!(server.lobbies().len(), 1);
}

#[test]
fn disconnect_removes_entry() {
    let mut server = Server::new();
    let a = addr(1, 5);
    let b = addr(2, 5);
    create(&mut server, a);
    let id_b = create(&mut server, b);
    server.handle_disconnect(a);
    assert_eq!(server.lobbies().len(), 1);
    assert_eq!(server.lobbies()[0], (id_b, b));
    server.remove_from_server(addr(7, 7));
    assert_eq!(server.lobbies().len(), 1);
}

#[test]
fn decoded_reply_round_trips() {
    let mut server = Server::new();
    let replies = server.handle_packet(addr(1, 1), &encode(&PacketMessage::FindLobby(['x'; 8]).send()));
    let bytes = encode(&replies[0].packet);
    assert_eq!(show(&decode(&bytes).unwrap()), show(&PacketResponse::NoLobby(['x'; 8]).send()));
}
