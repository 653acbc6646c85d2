//! IPv4 addresses as text.

use vstd::prelude::*;

use crate::text;
use crate::text::{chars_of, parse_number, split_at, trim};

verus! {

/// The octet that `s` spells: digits, at least one, and nothing else, up to 255.
pub open spec fn octet(s: Seq<char>) -> Option<nat> {
    if s.len() == 0 || (exists|i: int| 0 <= i < s.len() && !text::is_digit(#[trigger] s[i]))
        || text::decimal(s) > 255 {
        None
    } else {
        Some(text::decimal(s))
    }
}

/// The address that `s` spells in dotted-decimal form: four octets between dots, with white
/// space around them ignored.
pub open spec fn spelled(s: Seq<char>) -> Option<Seq<nat>> {
    let parts = text::split(text::trimmed(s), '.');
    if parts.len() == 4 && octet(parts[0]) is Some && octet(parts[1]) is Some && octet(parts[2]) is Some
        && octet(parts[3]) is Some {
        Some(
            seq![
                octet(parts[0]).unwrap(),
                octet(parts[1]).unwrap(),
                octet(parts[2]).unwrap(),
                octet(parts[3]).unwrap(),
            ],
        )
    } else {
        None
    }
}

/// The octet that a part spells.
fn parse_octet(part: &Vec<char>) -> (n: Option<u8>)
    ensures
        match n {
            Some(x) => octet(part@) == Some(x as nat),
            None => octet(part@) is None,
        },
{
    if part.len() > 0 && part[0] == '+' {
        assert(!text::is_digit(part@[0]));
        return None;
    }
    match parse_number(part, 255) {
        Some(n) => Some(n as u8),
        None => None,
    }
}

/// Parses an address in dotted-decimal form.
pub fn parse_ipv4(s: &str) -> (ip: Option<[u8; 4]>)
    ensures
        match ip {
            Some(a) => spelled(s@) == Some(
                seq![a[0] as nat, a[1] as nat, a[2] as nat, a[3] as nat],
            ),
            None => spelled(s@) is None,
        },
{
    let parts: Vec<Vec<char>> = split_at(&trim(&chars_of(s)), '.');
    let ghost views = text::words_view(parts@);
    assert(views.len() == parts@.len());
    if parts.len() != 4 {
        return None;
    }
    assert(views[0] == parts@[0]@ && views[1] == parts@[1]@ && views[2] == parts@[2]@ && views[3]
        == parts@[3]@);
    match (
        parse_octet(&parts[0]),
        parse_octet(&parts[1]),
        parse_octet(&parts[2]),
        parse_octet(&parts[3]),
    ) {
        (Some(a), Some(b), Some(c), Some(d)) => Some([a, b, c, d]),
        _ => None,
    }
}

} // verus!
