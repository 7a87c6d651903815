use compartya::codec::{decode, encode};
use compartya::wire::{Order, PacketMessage, PacketResponse, PeerAddr, SentPacket};

fn v4(a: u8, b: u8, c: u8, d: u8, port: u16) -> PeerAddr {
    PeerAddr::V4(u32::from_be_bytes([a, b, c, d]), port)
}

fn all_packets() -> Vec<SentPacket> {
    let id = ['A', 'b', '0', '_', '-', 'z', 'Q', '9'];
    let pw = ['p', 'ä', '€', '𝄞', ' ', ' ', ' ', ' '];
    let uid = ['u', 'i', 'd', '0', '1'];
    let v6 = PeerAddr::V6(0xfe80_0000_0000_0000_0001_0002_0003_0004, 443);
    vec![
        PacketMessage::FindLobby(id).send(),
        PacketMessage::CreateLobby.send(),
        PacketMessage::NewClient(v4(192, 168, 0, 243, 2000)).send(),
        PacketMessage::NewClient(v6).send(),
        PacketMessage::Auth(pw).send(),
        PacketMessage::GetLastOrder(uid).send(),
        PacketMessage::NewOrder(uid, Order::JoinServer("srv1".to_string(), "".to_string())).send(),
        PacketMessage::NewOrder(uid, Order::LeaveServer).send(),
        PacketMessage::VibeCheck.send(),
        PacketMessage::Ping(None).send(),
        PacketMessage::Ping(Some(uid)).send(),
        PacketResponse::FoundLobby(v4(10, 0, 0, 1, 12352)).send(),
        PacketResponse::NoLobby(id).send(),
        PacketResponse::CreatedLobby(id).send(),
        PacketResponse::AuthAccepted(uid, pw).send(),
        PacketResponse::FailedAuth.send(),
        PacketResponse::Pong.send(),
    ]
}

#[test]
fn round_trip_every_variant() {
    for p in all_packets() {
        let bytes = encode(&p);
        let back = decode(&bytes).expect("an encoding decodes");
        assert_eq!(format!("{:?}", back), format!("{:?}", p));
    }
}

#[test]
fn truncated_input_is_refused() {
    for p in all_packets() {
        let bytes = encode(&p);
        for cut in 0..bytes.len() {
            assert!(decode(&bytes[..cut]).is_err(), "prefix {} of {:?}", cut, p);
        }
    }
}

#[test]
fn trailing_bytes_are_refused() {
    let mut bytes = encode(&PacketResponse::Pong.send());
    bytes.push(0);
    assert!(decode(&bytes).is_err());
}

#[test]
fn unknown_tags_are_refused() {
    assert!(decode(&[2, 0, 0, 0]).is_err());
    assert!(decode(&[0, 0, 0, 0, 8, 0, 0, 0]).is_err());
    assert!(decode(&[1, 0, 0, 0, 6, 0, 0, 0]).is_err());
    assert!(decode(&[0, 0, 0, 0, 7, 0, 0, 0, 2]).is_err());
}

#[test]
fn invalid_utf8_is_refused() {
    // FindLobby with a lone continuation byte in place of the first character.
    let mut bytes = vec![0, 0, 0, 0, 0, 0, 0, 0, 0x80];
    bytes.extend_from_slice(b"1234567");
    assert!(decode(&bytes).is_err());
    // An encoded surrogate.
    let mut bytes = vec![0, 0, 0, 0, 0, 0, 0, 0, 0xed, 0xa0, 0x80];
    bytes.extend_from_slice(b"1234567");
    assert!(decode(&bytes).is_err());
    // A string whose bytes are not UTF-8.
    let mut bytes = encode(&PacketMessage::NewOrder(['a'; 5], Order::JoinServer("x".into(), "".into())).send());
    let at = bytes.len() - 9;
    bytes[at] = 0xff;
    assert!(decode(&bytes).is_err());
}

#[test]
fn string_length_beyond_input_is_refused() {
    let mut bytes = encode(&PacketMessage::NewOrder(['a'; 5], Order::JoinServer("x".into(), "".into())).send());
    let at = bytes.len() - 9 - 8;
    bytes[at] = 200;
    assert!(decode(&bytes).is_err());
}

#[test]
fn exact_bytes_of_small_packets() {
    assert_eq!(encode(&PacketMessage::CreateLobby.send()), vec![0, 0, 0, 0, 1, 0, 0, 0]);
    assert_eq!(encode(&PacketResponse::Pong.send()), vec![1, 0, 0, 0, 5, 0, 0, 0]);
    assert_eq!(
        encode(&PacketMessage::Ping(Some(['a', 'b', 'c', 'd', 'e'])).send()),
        vec![0, 0, 0, 0, 7, 0, 0, 0, 1, b'a', b'b', b'c', b'd', b'e']
    );
    assert_eq!(
        encode(&PacketMessage::NewClient(v4(1, 2, 3, 4, 0x1234)).send()),
        vec![0, 0, 0, 0, 2, 0, 0, 0, 0, 0, 0, 0, 1, 2, 3, 4, 0x34, 0x12]
    );
}

#[test]
fn layout_matches_bincode_for_messages() {
    let id = ['A', 'b', '0', '_', '-', 'z', 'Q', 'é'];
    assert_eq!(
        encode(&PacketMessage::FindLobby(id).send()),
        bincode::serialize(&(0u32, 0u32, id)).unwrap()
    );
    let uid = ['u', 'i', 'd', '0', '1'];
    assert_eq!(
        encode(&PacketMessage::NewOrder(uid, Order::JoinServer("srv1".into(), "pässword".into())).send()),
        bincode::serialize(&(0u32, 5u32, uid, 0u32, "srv1".to_string(), "pässword".to_string())).unwrap()
    );
    assert_eq!(
        encode(&PacketMessage::Ping(None).send()),
        bincode::serialize(&(0u32, 7u32, Option::<[char; 5]>::None)).unwrap()
    );
    // serde writes a socket address as its variant index, octets and port.
    assert_eq!(
        encode(&PacketMessage::NewClient(v4(192, 168, 0, 243, 2000)).send()),
        bincode::serialize(&(0u32, 2u32, 0u32, [192u8, 168, 0, 243], 2000u16)).unwrap()
    );
}

#[test]
fn layout_matches_bincode_for_responses() {
    let ip: u128 = 0x2001_0db8_0000_0000_0000_0000_0000_0007;
    assert_eq!(
        encode(&PacketResponse::FoundLobby(PeerAddr::V6(ip, 443)).send()),
        bincode::serialize(&(1u32, 0u32, 1u32, ip.to_be_bytes(), 443u16)).unwrap()
    );
    let uid = ['u', 'i', 'd', '0', '1'];
    let pw = ['a', 'b', 'c', 'd', 'e', 'f', 'g', 'h'];
    assert_eq!(
        encode(&PacketResponse::AuthAccepted(uid, pw).send()),
        bincode::serialize(&(1u32, 3u32, uid, pw)).unwrap()
    );
    assert_eq!(
        encode(&PacketResponse::FailedAuth.send()),
        bincode::serialize(&(1u32, 4u32)).unwrap()
    );
}

#[test]
fn bincode_bytes_decode() {
    let uid = ['x', 'y', 'z', '1', '2'];
    let bytes = bincode::serialize(&(0u32, 5u32, uid, 1u32)).unwrap();
    let p = decode(&bytes).unwrap();
    assert_eq!(
        format!("{:?}", p),
        format!("{:?}", PacketMessage::NewOrder(uid, Order::LeaveServer).send())
    );
}
