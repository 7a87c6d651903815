use compartya::codec::encode;
use compartya::ids::{lobby_uid_from, password_from};
use compartya::rendezvous::Server;
use compartya::session::{
    process_message_host, process_message_user, process_response, remove_from_host,
    ConnectionState, Effect, Host, LocalMessage, Session, User,
};
use compartya::wire::{
    Order, Outgoing, PacketMessage, PacketResponse, PartyaError, PeerAddr, PlayerUid, SentPacket,
};

fn addr(last: u8, port: u16) -> PeerAddr {
    PeerAddr::V4(u32::from_be_bytes([192, 168, 1, last]), port)
}

const STUN: u8 = 200;
const PW: [char; 8] = ['a', 'b', 'c', 'd', 'e', 'f', 'g', 'h'];

fn show<T: std::fmt::Debug>(v: &T) -> String {
    format!("{:?}", v)
}

fn host_state(s: &Session) -> &Host {
    match &s.state {
        ConnectionState::Host(h) => h,
        ConnectionState::User(_) => panic!("not a host"),
    }
}

fn user_state(s: &Session) -> &User {
    match &s.state {
        ConnectionState::User(u) => u,
        ConnectionState::Host(_) => panic!("not a user"),
    }
}

fn sends(effects: &[Effect]) -> Vec<(PeerAddr, String)> {
    effects
        .iter()
        .filter_map(|e| match e {
            Effect::Send(o) => Some((o.to, show(&o.packet))),
            _ => None,
        })
        .collect()
}

fn is_default_user(u: &User) -> bool {
    u.server.is_none()
        && u.uid == ['\0'; 5]
        && u.password == ['\0'; 8]
        && matches!(u.cached_order, Order::LeaveServer)
        && u.connect_to.is_none()
}

fn new_host(password: [char; 8]) -> Session {
    let (mut s, _) = Session::new(addr(STUN, 2000), None);
    s.handle_local(LocalMessage::BecomeHost(password));
    s
}

fn auth(host: &mut Session, from: PeerAddr, password: [char; 8]) -> Vec<Effect> {
    host.handle_packet(from, &encode(&PacketMessage::Auth(password).send()))
}

fn accepted_uid(effects: &[Effect]) -> PlayerUid {
    match &effects[0] {
        Effect::Send(Outgoing { packet: SentPacket::PacketResponse(PacketResponse::AuthAccepted(uid, _)), .. }) => *uid,
        other => panic!("unexpected {:?}", other),
    }
}

#[test]
fn new_session_is_default_user() {
    let (s, effects) = Session::new(addr(STUN, 2000), None);
    assert!(is_default_user(user_state(&s)));
    assert!(effects.is_empty());
}

#[test]
fn launch_order_is_cached_and_executed() {
    let order = Order::JoinServer("abc".into(), "".into());
    let (s, effects) = Session::new(addr(STUN, 2000), Some(order.clone()));
    assert_eq!(show(&user_state(&s).cached_order), show(&order));
    assert_eq!(effects.len(), 1);
    assert_eq!(show(&effects[0]), show(&Effect::ExecuteOrder(order)));
}

#[test]
fn become_host_is_fresh() {
    let mut s = new_host(PW);
    let h = host_state(&s);
    assert!(h.lobby_id.is_none());
    assert_eq!(h.password, PW);
    assert!(h.clients.is_empty());
    assert!(matches!(h.last_order, Order::LeaveServer));
    // A second host session, after leaving one with clients and an order, starts clean too.
    auth(&mut s, addr(1, 1), PW);
    s.handle_local(LocalMessage::NewOrder(Order::JoinServer("x".into(), "".into())));
    s.handle_local(LocalMessage::Leave);
    let effects = s.handle_local(LocalMessage::BecomeHost(PW));
    assert_eq!(sends(&effects), vec![(addr(STUN, 2000), show(&PacketMessage::CreateLobby.send()))]);
    let h = host_state(&s);
    assert!(h.clients.is_empty());
    assert!(matches!(h.last_order, Order::LeaveServer));
}

#[test]
fn become_user_is_default_and_clears_secret() {
    let mut s = new_host(PW);
    let effects = s.handle_local(LocalMessage::BecomeUser);
    assert!(is_default_user(user_state(&s)));
    assert_eq!(effects.len(), 1);
    assert!(matches!(effects[0], Effect::ClearSecret));
}

#[test]
fn leave_from_any_role_is_default_user() {
    let mut s = new_host(PW);
    assert!(s.handle_local(LocalMessage::Leave).is_empty());
    assert!(is_default_user(user_state(&s)));
    let (mut u, _) = Session::new(addr(STUN, 2000), Some(Order::LeaveServer));
    u.handle_local(LocalMessage::ConnectToLobby(['i'; 8], PW));
    u.handle_local(LocalMessage::Leave);
    assert!(is_default_user(user_state(&u)));
}

#[test]
fn commands_in_the_wrong_role_do_nothing() {
    let mut s = new_host(PW);
    assert!(s.handle_local(LocalMessage::BecomeHost(['z'; 8])).is_empty());
    assert_eq!(host_state(&s).password, PW);
    assert!(s.handle_local(LocalMessage::GetCachedOrder).is_empty());
    let (mut u, _) = Session::new(addr(STUN, 2000), None);
    assert!(u.handle_local(LocalMessage::BecomeUser).is_empty());
    assert!(u.handle_local(LocalMessage::NewOrder(Order::LeaveServer)).is_empty());
    assert!(is_default_user(user_state(&u)));
}

#[test]
fn get_cached_order_hands_it_over() {
    let order = Order::JoinServer("id".into(), "pw".into());
    let (mut u, _) = Session::new(addr(STUN, 2000), Some(order.clone()));
    let effects = u.handle_local(LocalMessage::GetCachedOrder);
    assert_eq!(show(&effects), show(&vec![Effect::ExecuteOrder(order)]));
}

#[test]
fn wrong_password_gets_failed_auth_and_changes_nothing() {
    let mut s = new_host(PW);
    let wrong = ['w', 'r', 'o', 'n', 'g', 'p', 'a', 's'];
    let effects = auth(&mut s, addr(1, 1), wrong);
    assert_eq!(sends(&effects), vec![(addr(1, 1), show(&PacketResponse::FailedAuth.send()))]);
    assert!(host_state(&s).clients.is_empty());
}

#[test]
fn correct_password_adds_one_client_once() {
    let mut s = new_host(PW);
    let effects = auth(&mut s, addr(1, 1), PW);
    let uid = accepted_uid(&effects);
    assert_eq!(host_state(&s).clients, vec![(addr(1, 1), uid)]);
    assert!(uid.iter().all(|c| c.is_ascii_alphanumeric() || *c == '_' || *c == '-'));
    assert_eq!(sends(&effects), vec![(addr(1, 1), show(&PacketResponse::AuthAccepted(uid, PW).send()))]);
    let again = auth(&mut s, addr(1, 1), PW);
    assert!(again.is_empty());
    assert_eq!(host_state(&s).clients.len(), 1);
}

#[test]
fn every_client_gets_its_own_uid() {
    let mut s = new_host(PW);
    for i in 1..=20u8 {
        auth(&mut s, addr(i, 1), PW);
    }
    let clients = &host_state(&s).clients;
    assert_eq!(clients.len(), 20);
    for a in 0..clients.len() {
        for b in a + 1..clients.len() {
            assert_ne!(clients[a].1, clients[b].1);
        }
    }
}

#[test]
fn mismatched_uid_evicts_client() {
    let mut s = new_host(PW);
    auth(&mut s, addr(1, 1), PW);
    let other = auth(&mut s, addr(2, 2), PW);
    let uid2 = accepted_uid(&other);
    let effects = s.handle_packet(addr(1, 1), &encode(&PacketMessage::GetLastOrder(['?'; 5]).send()));
    assert!(effects.is_empty());
    assert_eq!(host_state(&s).clients, vec![(addr(2, 2), uid2)]);
    let effects = s.handle_packet(addr(2, 2), &encode(&PacketMessage::Ping(Some(['?'; 5])).send()));
    assert!(effects.is_empty());
    assert!(host_state(&s).clients.is_empty());
}

#[test]
fn illegal_uid_is_reported_by_host_processing() {
    let mut host = Host::new(PW);
    let mut out = Vec::new();
    process_message_host(addr(1, 1), PacketMessage::Auth(PW), &mut host, &mut out).unwrap();
    let uid = host.clients[0].1;
    let r = process_message_host(addr(1, 1), PacketMessage::GetLastOrder(['?'; 5]), &mut host, &mut out);
    match r {
        Err(PartyaError::IllegalUid(u, a)) => {
            assert_eq!(u, uid);
            assert_eq!(a, addr(1, 1));
        }
        other => panic!("unexpected {:?}", other),
    }
    assert_eq!(host.clients.len(), 1);
    remove_from_host(&mut host, addr(1, 1));
    assert!(host.clients.is_empty());
}

#[test]
fn host_answers_ping_and_nudges_new_clients() {
    let mut s = new_host(PW);
    let uid = accepted_uid(&auth(&mut s, addr(1, 1), PW));
    let effects = s.handle_packet(addr(1, 1), &encode(&PacketMessage::Ping(Some(uid)).send()));
    assert_eq!(sends(&effects), vec![(addr(1, 1), show(&PacketResponse::Pong.send()))]);
    let effects = s.handle_packet(addr(STUN, 2000), &encode(&PacketMessage::NewClient(addr(7, 7)).send()));
    assert_eq!(sends(&effects), vec![(addr(7, 7), show(&PacketMessage::VibeCheck.send()))]);
}

#[test]
fn auth_accepted_binds_and_asks_for_order() {
    let (mut u, _) = Session::new(addr(STUN, 2000), None);
    u.handle_local(LocalMessage::ConnectToLobby(['l'; 8], PW));
    let uid = ['u', 'i', 'd', '4', '2'];
    let effects = u.handle_packet(addr(3, 3), &encode(&PacketResponse::AuthAccepted(uid, PW).send()));
    let user = user_state(&u);
    assert_eq!(user.server, Some(addr(3, 3)));
    assert_eq!(user.uid, uid);
    assert_eq!(effects.len(), 2);
    assert_eq!(sends(&effects), vec![(addr(3, 3), show(&PacketMessage::GetLastOrder(uid).send()))]);
    assert_eq!(show(&effects[1]), show(&Effect::ArmPing(addr(3, 3), Some(uid))));
    // Already bound: a second acceptance is ignored.
    let again = u.handle_packet(addr(4, 4), &encode(&PacketResponse::AuthAccepted(['x'; 5], PW).send()));
    assert!(again.is_empty());
    assert_eq!(user_state(&u).server, Some(addr(3, 3)));
}

#[test]
fn auth_accepted_with_other_password_is_ignored() {
    let (mut u, _) = Session::new(addr(STUN, 2000), None);
    u.handle_local(LocalMessage::ConnectToLobby(['l'; 8], PW));
    let effects = u.handle_packet(addr(3, 3), &encode(&PacketResponse::AuthAccepted(['x'; 5], ['q'; 8]).send()));
    assert!(effects.is_empty());
    assert!(user_state(&u).server.is_none());
}

#[test]
fn user_executes_orders_for_its_uid_only() {
    let mut user = User::default();
    user.uid = ['m', 'i', 'n', 'e', '1'];
    let mut out = Vec::new();
    let order = Order::JoinServer("s".into(), "".into());
    process_message_user(addr(1, 1), PacketMessage::NewOrder(['o'; 5], order.clone()), &mut user, &mut out).unwrap();
    assert!(out.is_empty());
    process_message_user(addr(1, 1), PacketMessage::NewOrder(user.uid, order.clone()), &mut user, &mut out).unwrap();
    assert_eq!(show(&out), show(&vec![Effect::ExecuteOrder(order.clone())]));
    assert_eq!(show(&user.cached_order), show(&order));
    process_message_user(addr(1, 1), PacketMessage::VibeCheck, &mut user, &mut out).unwrap();
    assert_eq!(out.len(), 1);
}

#[test]
fn pongs_rearm_pings() {
    let mut s = new_host(PW);
    let uid = accepted_uid(&auth(&mut s, addr(1, 1), PW));
    let pong = encode(&PacketResponse::Pong.send());
    let e = s.handle_packet(addr(1, 1), &pong);
    assert_eq!(show(&e), show(&vec![Effect::ArmPing(addr(1, 1), Some(uid))]));
    let e = s.handle_packet(addr(STUN, 2000), &pong);
    assert_eq!(show(&e), show(&vec![Effect::ArmPing(addr(STUN, 2000), None)]));
    assert!(s.handle_packet(addr(9, 9), &pong).is_empty());
}

#[test]
fn created_lobby_is_recorded_and_published() {
    let mut state = ConnectionState::Host(Host::new(PW));
    let mut out = Vec::new();
    let id = ['X'; 8];
    process_response(addr(STUN, 2000), PacketResponse::CreatedLobby(id), &mut state, &mut out, addr(STUN, 2000)).unwrap();
    match &state {
        ConnectionState::Host(h) => assert_eq!(h.lobby_id, Some(id)),
        _ => panic!(),
    }
    assert_eq!(show(&out), show(&vec![Effect::ArmPing(addr(STUN, 2000), None), Effect::PublishSecret(id)]));
}

#[test]
fn disconnects_drop_bindings() {
    let mut s = new_host(PW);
    auth(&mut s, addr(1, 1), PW);
    s.handle_packet(addr(STUN, 2000), &encode(&PacketResponse::CreatedLobby(['X'; 8]).send()));
    assert!(s.handle_disconnect(addr(1, 1)).is_empty());
    assert!(host_state(&s).clients.is_empty());
    assert_eq!(host_state(&s).lobby_id, Some(['X'; 8]));
    let e = s.handle_disconnect(addr(STUN, 2000));
    assert!(matches!(e[..], [Effect::ClearSecret]));
    assert!(host_state(&s).lobby_id.is_none());

    let (mut u, _) = Session::new(addr(STUN, 2000), None);
    u.handle_local(LocalMessage::ConnectToLobby(['l'; 8], PW));
    u.handle_packet(addr(3, 3), &encode(&PacketResponse::AuthAccepted(['u'; 5], PW).send()));
    u.handle_disconnect(addr(4, 4));
    assert_eq!(user_state(&u).server, Some(addr(3, 3)));
    u.handle_disconnect(addr(3, 3));
    assert!(user_state(&u).server.is_none());
}

#[test]
fn garbage_packets_change_nothing() {
    let mut s = new_host(PW);
    assert!(s.handle_packet(addr(1, 1), &[1, 2, 3]).is_empty());
    assert!(host_state(&s).clients.is_empty());
}

/// Delivers every `Send` effect of `effects` that goes to `to`, as bytes, from `from`.
fn deliver_to_server(server: &mut Server, from: PeerAddr, effects: &[Effect]) -> Vec<Outgoing> {
    let mut replies = Vec::new();
    for e in effects {
        if let Effect::Send(o) = e {
            replies.extend(server.handle_packet(from, &encode(&o.packet)));
        }
    }
    replies
}

#[test]
fn scenario_host_and_user_meet_through_the_directory() {
    let stun = addr(STUN, 2000);
    let host_addr = addr(1, 12352);
    let user_addr = addr(2, 12352);
    let mut server = Server::new();
    let (mut host, _) = Session::new(stun, None);
    let (mut user, _) = Session::new(stun, None);

    // Host: BecomeHost("abcdefgh") -> directory answers CreatedLobby(id).
    let e = host.handle_local(LocalMessage::BecomeHost(password_from(&"abcdefgh".chars().collect()).unwrap()));
    let replies = deliver_to_server(&mut server, host_addr, &e);
    assert_eq!(replies.len(), 1);
    let id = match &replies[0].packet {
        SentPacket::PacketResponse(PacketResponse::CreatedLobby(id)) => *id,
        other => panic!("unexpected {:?}", other),
    };
    host.handle_packet(stun, &encode(&replies[0].packet));
    assert_eq!(host_state(&host).lobby_id, Some(id));

    // User: ConnectToLobby(id, "abcdefgh") -> NewClient to host, FoundLobby to user.
    let typed: String = id.iter().collect();
    let lobby = lobby_uid_from(&typed.chars().collect()).unwrap();
    let e = user.handle_local(LocalMessage::ConnectToLobby(lobby, password_from(&"abcdefgh".chars().collect()).unwrap()));
    let replies = deliver_to_server(&mut server, user_addr, &e);
    assert_eq!(replies.len(), 2);
    assert_eq!(replies[0].to, host_addr);
    assert_eq!(show(&replies[0].packet), show(&PacketMessage::NewClient(user_addr).send()));
    assert_eq!(replies[1].to, user_addr);
    assert_eq!(show(&replies[1].packet), show(&PacketResponse::FoundLobby(host_addr).send()));
    let nudge = host.handle_packet(stun, &encode(&replies[0].packet));
    assert_eq!(sends(&nudge), vec![(user_addr, show(&PacketMessage::VibeCheck.send()))]);

    // User sends Auth("abcdefgh") to the host.
    let e = user.handle_packet(stun, &encode(&replies[1].packet));
    assert_eq!(sends(&e), vec![(host_addr, show(&PacketMessage::Auth(PW).send()))]);
    let Effect::Send(auth_packet) = &e[0] else { panic!() };

    // Host accepts and registers the user.
    let e = host.handle_packet(user_addr, &encode(&auth_packet.packet));
    let uid = accepted_uid(&e);
    assert_eq!(host_state(&host).clients, vec![(user_addr, uid)]);
    let Effect::Send(accepted) = &e[0] else { panic!() };

    // User binds and asks for the last order.
    let e = user.handle_packet(host_addr, &encode(&accepted.packet));
    assert_eq!(user_state(&user).server, Some(host_addr));
    assert_eq!(sends(&e), vec![(host_addr, show(&PacketMessage::GetLastOrder(uid).send()))]);
    let Effect::Send(ask) = &e[0] else { panic!() };

    // Host answers with NewOrder(uid, LeaveServer).
    let e = host.handle_packet(user_addr, &encode(&ask.packet));
    assert_eq!(sends(&e), vec![(user_addr, show(&PacketMessage::NewOrder(uid, Order::LeaveServer).send()))]);
}

#[test]
fn scenario_wrong_password() {
    let mut host = new_host(password_from(&"abcdefgh".chars().collect()).unwrap());
    let wrong = password_from(&"wrongpass".chars().take(8).collect()).unwrap();
    let e = auth(&mut host, addr(2, 2), wrong);
    assert_eq!(sends(&e), vec![(addr(2, 2), show(&PacketResponse::FailedAuth.send()))]);
    assert!(host_state(&host).clients.is_empty());
}

#[test]
fn scenario_order_goes_to_every_client() {
    let mut host = new_host(PW);
    let mut uids = Vec::new();
    for i in 1..=3u8 {
        uids.push(accepted_uid(&auth(&mut host, addr(i, 1000 + i as u16), PW)));
    }
    let order = Order::JoinServer("srv1".into(), "".into());
    let e = host.handle_local(LocalMessage::NewOrder(order.clone()));
    let expected: Vec<(PeerAddr, String)> = (0..3)
        .map(|i| (addr(i as u8 + 1, 1001 + i as u16), show(&PacketMessage::NewOrder(uids[i], order.clone()).send())))
        .collect();
    assert_eq!(e.len(), 3);
    assert_eq!(sends(&e), expected);
    assert_eq!(show(&host_state(&host).last_order), show(&order));
}

#[test]
fn password_and_lobby_text() {
    assert_eq!(password_from(&"ab".chars().collect()), Some(['a', 'b', ' ', ' ', ' ', ' ', ' ', ' ']));
    assert_eq!(password_from(&"".chars().collect()), Some([' '; 8]));
    assert_eq!(password_from(&"abcdefgh".chars().collect()), Some(PW));
    assert_eq!(password_from(&"abcdefghi".chars().collect()), None);
    assert_eq!(lobby_uid_from(&"abcdefgh".chars().collect()), Some(PW));
    assert_eq!(lobby_uid_from(&"abc".chars().collect()), Some(['a', 'b', 'c', ' ', ' ', ' ', ' ', ' ']));
    assert_eq!(lobby_uid_from(&"abcdefghi".chars().collect()), None);
}
