//! Fresh identifiers, and fixed-width identifiers from user text.
use vstd::prelude::*;
use crate::wire::{LobbyUid, Password, PlayerUid, array_of_5, array_of_8};

verus! {

/// A character of nanoid's URL-safe alphabet: `A-Z`, `a-z`, `0-9`, `_` and `-`.
pub open spec fn is_id_char(c: char) -> bool {
    ||| c == '_'
    ||| c == '-'
    ||| ('0' as u32 <= c as u32 && c as u32 <= '9' as u32)
    ||| ('a' as u32 <= c as u32 && c as u32 <= 'z' as u32)
    ||| ('A' as u32 <= c as u32 && c as u32 <= 'Z' as u32)
}

/// Relies on `nanoid::format` with `nanoid::rngs::default` and
/// `nanoid::alphabet::SAFE`: `size` characters, each taken from that alphabet.
/// (The call draws random bytes until it has `size` characters, so it needs
/// `size` to be at least 1.)
#[verifier::external_body]
fn random_id(size: usize) -> (r: Vec<char>)
    requires
        1 <= size <= 64,
    ensures
        r@.len() == size,
        forall|i: int| 0 <= i < r@.len() ==> is_id_char(#[trigger] r@[i]),
{
    nanoid::format(nanoid::rngs::default, &nanoid::alphabet::SAFE, size).chars().collect()
}

/// A fresh random lobby identifier.
pub fn new_lobby_uid() -> (r: LobbyUid)
    ensures
        forall|i: int| 0 <= i < 8 ==> is_id_char(#[trigger] r@[i]),
{
    let v = random_id(8);
    array_of_8(&v)
}

/// A fresh random player identifier.
pub fn new_player_uid() -> (r: PlayerUid)
    ensures
        forall|i: int| 0 <= i < 5 ==> is_id_char(#[trigger] r@[i]),
{
    let v = random_id(5);
    array_of_5(&v)
}

/// `text` padded with spaces to eight characters.
pub open spec fn padded8(text: Seq<char>) -> Seq<char> {
    text + Seq::new((8 - text.len()) as nat, |i: int| ' ')
}

/// The password typed as `text`: padded with spaces to eight characters, or
/// `None` where it is longer than eight.
pub fn password_from(text: &Vec<char>) -> (r: Option<Password>)
    ensures
        text@.len() <= 8 ==> (r matches Some(p) && p@ == padded8(text@)),
        text@.len() > 8 ==> r is None,
{
    if text.len() > 8 {
        return None;
    }
    let mut v: Vec<char> = Vec::new();
    let mut i: usize = 0;
    while i < 8
        invariant
            text@.len() <= 8,
            i <= 8,
            v@.len() == i,
            forall|j: int| 0 <= j < i ==> v@[j] == padded8(text@)[j],
        decreases 8 - i,
    {
        if i < text.len() {
            v.push(text[i]);
        } else {
            v.push(' ');
        }
        i = i + 1;
    }
    let p = array_of_8(&v);
    assert(p@ =~= padded8(text@));
    Some(p)
}

/// The lobby identifier typed as `text`: padded with spaces to eight
/// characters, or `None` where it is longer than eight.
pub fn lobby_uid_from(text: &Vec<char>) -> (r: Option<LobbyUid>)
    ensures
        text@.len() <= 8 ==> (r matches Some(id) && id@ == padded8(text@)),
        text@.len() > 8 ==> r is None,
{
    password_from(text)
}

} // verus!
