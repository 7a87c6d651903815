use compartya::launch::{bind_address, first_launch_order, launch_option, launch_order, level_name};
use compartya::wire::Order;

fn chars(s: &str) -> Vec<char> {
    s.chars().collect()
}

fn show(o: &Option<Order>) -> String {
    format!("{:?}", o)
}

#[test]
fn escaped_invite_link_carries_server_id() {
    let o = launch_order(&chars("compartya::%5Copen:f4bffec013fe65b634ba2ea499a86fa3"));
    assert_eq!(
        show(&o),
        show(&Some(Order::JoinServer("f4bffec013fe65b634ba2ea499a86fa3".into(), "".into())))
    );
}

#[test]
fn plain_invite_link_drops_closing_slash() {
    let o = launch_order(&chars("compartya://open:abc123/"));
    assert_eq!(show(&o), show(&Some(Order::JoinServer("abc123".into(), "".into()))));
    assert_eq!(show(&launch_order(&chars("compartya://open:"))), show(&None));
    assert_eq!(show(&launch_order(&chars("compartya://open:x"))), show(&Some(Order::JoinServer("".into(), "".into()))));
}

#[test]
fn other_arguments_carry_no_order() {
    assert_eq!(show(&launch_order(&chars("-novid"))), show(&None));
    assert_eq!(show(&launch_order(&chars("compartya::open:abc"))), show(&None));
    assert_eq!(show(&launch_order(&chars(""))), show(&None));
}

#[test]
fn first_invite_argument_wins() {
    let args = vec![
        chars("game.exe"),
        chars("compartya://open:first/"),
        chars("compartya::%5Copen:second"),
    ];
    assert_eq!(show(&first_launch_order(&args)), show(&Some(Order::JoinServer("first".into(), "".into()))));
    assert_eq!(show(&first_launch_order(&vec![chars("a"), chars("b")])), show(&None));
}

#[test]
fn level_name_skips_zero_and_negative_bytes() {
    let mut raw = [0i8; 32];
    for (i, b) in "mp_lobby".bytes().enumerate() {
        raw[i] = b as i8;
    }
    assert_eq!(level_name(&raw).iter().collect::<String>(), "mp_lobby");
    let raw = [b'm' as i8, 0, -3, b'p' as i8];
    assert_eq!(level_name(&raw), vec!['m', 'p']);
}

#[test]
fn launch_options_take_the_following_argument() {
    let args = vec![chars("game.exe"), chars("compartya_ip"), chars("10.0.0.5"), chars("compartya_port")];
    assert_eq!(launch_option(&args, &chars("compartya_ip")), Some(2));
    assert_eq!(launch_option(&args, &chars("compartya_port")), None);
    assert_eq!(launch_option(&args, &chars("missing")), None);
    assert_eq!(launch_option(&vec![], &chars("x")), None);
    let ip = chars("10.0.0.5");
    assert_eq!(bind_address(&ip, None).iter().collect::<String>(), "10.0.0.5:12352");
    assert_eq!(bind_address(&ip, Some(&chars("4000"))).iter().collect::<String>(), "10.0.0.5:4000");
}
