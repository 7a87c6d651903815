//! What the game process hands the plugin at start: its launch arguments and
//! the engine's level name.
use vstd::prelude::*;
use crate::wire::{Order, OrderModel};

verus! {

/// The launch argument prefix of an invite link as the URI handler escapes it.
pub open spec fn escaped_open_prefix() -> Seq<char> {
    seq!['c', 'o', 'm', 'p', 'a', 'r', 't', 'y', 'a', ':', ':', '%', '5', 'C', 'o', 'p', 'e', 'n', ':']
}

/// The launch argument prefix of an invite link as typed; the link ends in one
/// more character (a closing slash) that is not part of the server id.
pub open spec fn plain_open_prefix() -> Seq<char> {
    seq!['c', 'o', 'm', 'p', 'a', 'r', 't', 'y', 'a', ':', '/', '/', 'o', 'p', 'e', 'n', ':']
}

/// The server id that the launch argument `arg` asks to join, if it is an invite link.
pub open spec fn launch_server_id(arg: Seq<char>) -> Option<Seq<char>> {
    let e = escaped_open_prefix();
    let p = plain_open_prefix();
    if arg.len() >= e.len() && arg.subrange(0, e.len() as int) == e {
        Some(arg.subrange(e.len() as int, arg.len() as int))
    } else if arg.len() > p.len() && arg.subrange(0, p.len() as int) == p {
        Some(arg.subrange(p.len() as int, arg.len() - 1))
    } else {
        None
    }
}

/// Relies on `String::from_iter` over characters: the string of exactly those characters.
#[verifier::external_body]
fn string_of(chars: &[char]) -> (r: String)
    ensures
        r@ == chars@,
{
    chars.iter().collect()
}

fn starts_with(arg: &Vec<char>, prefix: &[char]) -> (r: bool)
    ensures
        r == (arg@.len() >= prefix@.len() && arg@.subrange(0, prefix@.len() as int) == prefix@),
{
    if arg.len() < prefix.len() {
        return false;
    }
    let mut i: usize = 0;
    while i < prefix.len()
        invariant
            prefix@.len() <= arg@.len(),
            i <= prefix@.len(),
            forall|k: int| 0 <= k < i ==> arg@[k] == prefix@[k],
        decreases prefix@.len() - i,
    {
        if arg[i] != prefix[i] {
            assert(arg@.subrange(0, prefix@.len() as int)[i as int] != prefix@[i as int]);
            return false;
        }
        i = i + 1;
    }
    assert(arg@.subrange(0, prefix@.len() as int) =~= prefix@);
    true
}

/// The order that the launch argument `arg` carries: an invite link asks to
/// join its server, with no password; any other argument carries none.
pub fn launch_order(arg: &Vec<char>) -> (r: Option<Order>)
    ensures
        match launch_server_id(arg@) {
            None => r is None,
            Some(id) => r matches Some(o) && o@ == OrderModel::JoinServer(id, Seq::empty()),
        },
{
    let escaped = [
        'c', 'o', 'm', 'p', 'a', 'r', 't', 'y', 'a', ':', ':', '%', '5', 'C', 'o', 'p', 'e', 'n', ':',
    ];
    let plain = ['c', 'o', 'm', 'p', 'a', 'r', 't', 'y', 'a', ':', '/', '/', 'o', 'p', 'e', 'n', ':'];
    assert(escaped@ =~= escaped_open_prefix());
    assert(plain@ =~= plain_open_prefix());
    let empty: [char; 0] = [];
    assert(empty@ =~= Seq::<char>::empty());
    if starts_with(arg, &escaped) {
        let id = string_of(&arg.as_slice()[19..arg.len()]);
        Some(Order::JoinServer(id, string_of(&empty)))
    } else if arg.len() > 17 && starts_with(arg, &plain) {
        let id = string_of(&arg.as_slice()[17..arg.len() - 1]);
        Some(Order::JoinServer(id, string_of(&empty)))
    } else {
        None
    }
}

/// The first order that any of the launch arguments carries.
pub fn first_launch_order(args: &Vec<Vec<char>>) -> (r: Option<Order>)
    ensures
        (forall|i: int| 0 <= i < args@.len() ==> launch_server_id(#[trigger] args@[i]@) is None)
            ==> r is None,
        (exists|i: int| 0 <= i < args@.len() && launch_server_id(#[trigger] args@[i]@) is Some)
            ==> r is Some,
        r is Some ==> exists|i: int|
            0 <= i < args@.len() && (forall|k: int|
                0 <= k < i ==> launch_server_id(#[trigger] args@[k]@) is None) && (
            launch_server_id(#[trigger] args@[i]@) matches Some(id) && r->0@ == OrderModel::JoinServer(
                id,
                Seq::empty(),
            )),
{
    let mut i: usize = 0;
    while i < args.len()
        invariant
            i <= args@.len(),
            forall|k: int| 0 <= k < i ==> launch_server_id(#[trigger] args@[k]@) is None,
        decreases args@.len() - i,
    {
        if let Some(o) = launch_order(&args[i]) {
            return Some(o);
        }
        i = i + 1;
    }
    None
}

/// The characters of a raw engine name: its positive bytes, in order, as
/// ASCII characters; zero and negative bytes are skipped.
pub open spec fn printable(raw: Seq<i8>) -> Seq<char>
    decreases raw.len(),
{
    if raw.len() == 0 {
        Seq::empty()
    } else if raw.last() > 0 {
        printable(raw.drop_last()).push(raw.last() as u8 as char)
    } else {
        printable(raw.drop_last())
    }
}

/// The level name held in the engine's fixed-size name buffer.
pub fn level_name(raw: &[i8]) -> (r: Vec<char>)
    ensures
        r@ == printable(raw@),
{
    let mut out: Vec<char> = Vec::new();
    let mut i: usize = 0;
    while i < raw.len()
        invariant
            i <= raw@.len(),
            out@ == printable(raw@.take(i as int)),
        decreases raw@.len() - i,
    {
        let b = raw[i];
        if b > 0 {
            out.push((b as u8) as char);
        }
        proof {
            assert(raw@.take(i + 1).drop_last() =~= raw@.take(i as int));
        }
        i = i + 1;
    }
    proof {
        assert(raw@.take(raw@.len() as int) =~= raw@);
    }
    out
}

/// The launch arguments as character sequences.
pub open spec fn texts(args: Seq<Vec<char>>) -> Seq<Seq<char>> {
    args.map_values(|a: Vec<char>| a@)
}

/// Whether `j` is where the value of launch option `name` stands in `args`:
/// right after the first occurrence of `name` that has an argument after it.
pub open spec fn option_value_at(args: Seq<Seq<char>>, name: Seq<char>, j: int) -> bool {
    &&& 1 <= j < args.len()
    &&& args[j - 1] == name
    &&& forall|k: int| 0 <= k < j - 1 ==> (#[trigger] args[k]) != name
}

fn same_text(a: &Vec<char>, b: &Vec<char>) -> (r: bool)
    ensures
        r == (a@ == b@),
{
    if a.len() != b.len() {
        return false;
    }
    let mut i: usize = 0;
    while i < a.len()
        invariant
            a@.len() == b@.len(),
            i <= a@.len(),
            forall|k: int| 0 <= k < i ==> a@[k] == b@[k],
        decreases a@.len() - i,
    {
        if a[i] != b[i] {
            return false;
        }
        i = i + 1;
    }
    assert(a@ =~= b@);
    true
}

/// The index of the value of launch option `name` (`name value`) in `args`.
pub fn launch_option(args: &Vec<Vec<char>>, name: &Vec<char>) -> (r: Option<usize>)
    ensures
        r matches Some(j) ==> option_value_at(texts(args@), name@, j as int),
        r is None ==> forall|j: int|
            !#[trigger] option_value_at(texts(args@), name@, j),
{
    let ghost all = texts(args@);
    if args.len() < 2 {
        return None;
    }
    let mut i: usize = 0;
    while i < args.len() - 1
        invariant
            all == texts(args@),
            args@.len() >= 2,
            i <= args@.len() - 1,
            forall|k: int| 0 <= k < i ==> (#[trigger] all[k]) != name@,
        decreases args@.len() - i,
    {
        if same_text(&args[i], name) {
            return Some(i + 1);
        }
        i = i + 1;
    }
    proof {
        assert forall|j: int| !#[trigger] option_value_at(all, name@, j) by {
            if option_value_at(all, name@, j) {
                assert(all[j - 1] == name@);
            }
        }
    }
    None
}

/// The address the peer binds to: `ip`, a colon, and `port` (by default 12352).
pub fn bind_address(ip: &Vec<char>, port: Option<&Vec<char>>) -> (r: Vec<char>)
    ensures
        r@ == ip@ + seq![':'] + match port {
            Some(p) => p@,
            None => seq!['1', '2', '3', '5', '2'],
        },
{
    let mut out: Vec<char> = ip.clone();
    out.push(':');
    let default_port = vec!['1', '2', '3', '5', '2'];
    let tail = match port {
        Some(p) => p,
        None => &default_port,
    };
    let ghost head = out@;
    let mut i: usize = 0;
    while i < tail.len()
        invariant
            i <= tail@.len(),
            out@ == head + tail@.take(i as int),
        decreases tail@.len() - i,
    {
        out.push(tail[i]);
        proof {
            assert(tail@.take(i + 1) =~= tail@.take(i as int).push(tail@[i as int]));
        }
        i = i + 1;
    }
    proof {
        assert(tail@.take(tail@.len() as int) =~= tail@);
        assert(default_port@ =~= seq!['1', '2', '3', '5', '2']);
    }
    out
}

} // verus!
