use compartya::local_ip::address_from_report;

fn report(text: &str) -> Option<String> {
    address_from_report(&text.chars().collect()).map(|v| v.into_iter().collect())
}

#[test]
fn labelled_address_is_found() {
    let text = "Windows IP Configuration\r\n\r\nEthernet adapter Ethernet:\r\n\r\n   Connection-specific DNS Suffix  . : home\r\n   IPv4 Address. . . . . . . . . . . : 192.168.0.243\r\n   Subnet Mask . . . . . . . . . . . : 255.255.255.0\r\n";
    assert_eq!(report(text), Some("192.168.0.243".to_string()));
}

#[test]
fn last_labelled_address_wins() {
    let text = "   IPv4 Address. . . : 10.0.0.1\n   IPv4 Address. . . : 10.0.0.2 \n";
    assert_eq!(report(text), Some("10.0.0.2".to_string()));
}

#[test]
fn other_spellings_are_found_by_the_lax_pass() {
    let text = "   ipv4-adresse  . . : 172.16.5.4\n   Gateway . . . : 172.16.5.1\n";
    assert_eq!(report(text), Some("172.16.5.4".to_string()));
}

#[test]
fn field_stops_at_the_next_colon() {
    let text = "IPv4 Address: 10.1.2.3:extra\n";
    assert_eq!(report(text), Some("10.1.2.3".to_string()));
}

#[test]
fn no_address_is_none() {
    assert_eq!(report("nothing here\n"), None);
    assert_eq!(report(""), None);
    assert_eq!(report("IPv4 Address without colon\n"), None);
}

#[test]
fn unicode_white_space_is_trimmed() {
    let text = "IPv4 Address:\u{3000}\u{a0}10.9.8.7\u{2009}\r\n";
    assert_eq!(report(text), Some("10.9.8.7".to_string()));
}

#[test]
fn trimming_agrees_with_std_white_space() {
    for c in (0u32..=0x10ffff).filter_map(char::from_u32) {
        if c == ':' || c == '\n' {
            continue;
        }
        let text = format!("IPv4 Address:{c}1{c}");
        let expected = if c.is_whitespace() { "1".to_string() } else { format!("{c}1{c}") };
        assert_eq!(report(&text), Some(expected), "{:?}", c);
    }
}
