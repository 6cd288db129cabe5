//! `/pardon-ip`: the target must be an IP address literal, and it must be on
//! the ban list, before it is taken off it.
//!
//! An IP address literal is read as `str::parse::<IpAddr>` reads one: four
//! dotted decimal octets (at most three digits, no leading zero, at most 255),
//! or eight colon-separated groups of one to four hex digits, where one `::`
//! may stand for one or more zero groups and the last two groups may be
//! written as dotted octets.

use vstd::prelude::*;
use crate::decimal::digits_value;
use vstd::string::StringSliceAdditionalSpecFns;
use crate::text::{bytes_of, str_eq};

verus! {

pub open spec fn is_dec(c: u8) -> bool {
    48 <= c <= 57
}

pub open spec fn is_hex(c: u8) -> bool {
    ||| 48 <= c <= 57
    ||| 65 <= c <= 70
    ||| 97 <= c <= 102
}

/// The end of the run of decimal digits at `p`.
pub open spec fn dec_end(b: Seq<u8>, p: int) -> int
    decreases b.len() - p,
{
    if 0 <= p < b.len() && is_dec(b[p]) {
        dec_end(b, p + 1)
    } else {
        p
    }
}

/// The end of the run of hex digits at `p`.
pub open spec fn hex_end(b: Seq<u8>, p: int) -> int
    decreases b.len() - p,
{
    if 0 <= p < b.len() && is_hex(b[p]) {
        hex_end(b, p + 1)
    } else {
        p
    }
}

/// An octet at `p`: one to three digits, no leading zero, at most 255.
pub open spec fn octet_at(b: Seq<u8>, p: int) -> Option<int> {
    let e = dec_end(b, p);
    if 1 <= e - p <= 3 && digits_value(b.subrange(p, e)) <= 255 && !(b[p] == 48u8 && e - p > 1) {
        Some(e)
    } else {
        None
    }
}

/// The position after separator `c` at `p`, which the first item has none of.
pub open spec fn sep_at(b: Seq<u8>, p: int, i: int, c: u8) -> Option<int> {
    if i > 0 {
        if 0 <= p < b.len() && b[p] == c { Some(p + 1) } else { None }
    } else {
        Some(p)
    }
}

/// The end of the dotted octets `i` to 3 read from `p`.
pub open spec fn octets_from(b: Seq<u8>, p: int, i: int) -> Option<int>
    decreases 4 - i,
{
    if i >= 4 {
        Some(p)
    } else {
        match sep_at(b, p, i, 46u8) {
            None => None,
            Some(q) => match octet_at(b, q) {
                None => None,
                Some(e) => octets_from(b, e, i + 1),
            },
        }
    }
}

/// A hex group at `p`: one to four hex digits.
pub open spec fn hex_group(b: Seq<u8>, p: int) -> Option<int> {
    let e = hex_end(b, p);
    if 1 <= e - p <= 4 { Some(e) } else { None }
}

/// Reads groups `i` up to `limit` from `p`: how many were read, whether the
/// last two were dotted octets, and the position after them.
pub open spec fn groups(b: Seq<u8>, p: int, i: int, limit: int) -> (int, bool, int)
    decreases limit - i,
{
    if i >= limit {
        (i, false, p)
    } else {
        match sep_at(b, p, i, 58u8) {
            None => (i, false, p),
            Some(q) => if i < limit - 1 && octets_from(b, q, 0) is Some {
                (i + 2, true, octets_from(b, q, 0)->Some_0)
            } else {
                match hex_group(b, q) {
                    Some(e) => groups(b, e, i + 1, limit),
                    None => (i, false, p),
                }
            },
        }
    }
}

/// The whole text is an IPv6 literal.
pub open spec fn ipv6_literal(b: Seq<u8>) -> bool {
    let (hs, h4, hp) = groups(b, 0, 0, 8);
    if hs == 8 {
        hp == b.len()
    } else if h4 {
        false
    } else if hp + 2 <= b.len() && b[hp] == 58u8 && b[hp + 1] == 58u8 {
        groups(b, hp + 2, 0, 7 - hs).2 == b.len()
    } else {
        false
    }
}

/// The whole text is an IP address literal: dotted octets when they can be
/// read at the start, else IPv6.
pub open spec fn ip_literal(b: Seq<u8>) -> bool {
    match octets_from(b, 0, 0) {
        Some(e) => e == b.len(),
        None => ipv6_literal(b),
    }
}

proof fn lemma_dec_end(b: Seq<u8>, p: int)
    requires
        0 <= p <= b.len(),
    ensures
        p <= dec_end(b, p) <= b.len(),
        forall|j: int| p <= j < dec_end(b, p) ==> is_dec(#[trigger] b[j]),
    decreases b.len() - p,
{
    if p < b.len() && is_dec(b[p]) {
        lemma_dec_end(b, p + 1);
    }
}

fn dec_end_exec(b: &[u8], p: usize) -> (r: usize)
    requires
        p <= b@.len(),
    ensures
        r == dec_end(b@, p as int),
        p <= r <= b@.len(),
{
    let mut e = p;
    while e < b.len() && b[e] >= 48 && b[e] <= 57
        invariant
            p <= e <= b@.len(),
            dec_end(b@, e as int) == dec_end(b@, p as int),
        decreases b@.len() - e,
    {
        e = e + 1;
    }
    e
}

fn hex_end_exec(b: &[u8], p: usize) -> (r: usize)
    requires
        p <= b@.len(),
    ensures
        r == hex_end(b@, p as int),
        p <= r <= b@.len(),
{
    let mut e = p;
    while e < b.len() && ((b[e] >= 48 && b[e] <= 57) || (b[e] >= 65 && b[e] <= 70) || (b[e] >= 97
        && b[e] <= 102))
        invariant
            p <= e <= b@.len(),
            hex_end(b@, e as int) == hex_end(b@, p as int),
        decreases b@.len() - e,
    {
        e = e + 1;
    }
    e
}

fn octet_at_exec(b: &[u8], p: usize) -> (r: Option<usize>)
    requires
        p <= b@.len(),
    ensures
        r matches Some(e) ==> octet_at(b@, p as int) == Some(e as int) && e <= b@.len(),
        r is None ==> octet_at(b@, p as int) is None,
{
    let e = dec_end_exec(b, p);
    let k = e - p;
    if k < 1 || k > 3 {
        return None;
    }
    let mut v: u32 = 0;
    let mut i = p;
    proof {
        lemma_dec_end(b@, p as int);
    }
    while i < e
        invariant
            p <= i <= e,
            e - p <= 3,
            e <= b@.len(),
            forall|j: int| p <= j < e ==> is_dec(#[trigger] b@[j]),
            v == digits_value(b@.subrange(p as int, i as int)),
            i - p == 0 ==> v == 0,
            i - p == 1 ==> v < 10,
            i - p == 2 ==> v < 100,
            v < 1000,
        decreases e - i,
    {
        proof {
            assert(b@.subrange(p as int, i + 1).drop_last() == b@.subrange(p as int, i as int));
            assert(is_dec(b@[i as int]));
        }
        v = v * 10 + (b[i] - 48) as u32;
        i = i + 1;
    }
    if v <= 255 && !(b[p] == 48 && k > 1) {
        Some(e)
    } else {
        None
    }
}

fn octets_exec(b: &[u8], p: usize) -> (r: Option<usize>)
    requires
        p <= b@.len(),
    ensures
        r matches Some(e) ==> octets_from(b@, p as int, 0) == Some(e as int) && e <= b@.len(),
        r is None ==> octets_from(b@, p as int, 0) is None,
{
    let mut pos = p;
    let mut i: usize = 0;
    while i < 4
        invariant
            0 <= i <= 4,
            pos <= b@.len(),
            octets_from(b@, p as int, 0) == octets_from(b@, pos as int, i as int),
        decreases 4 - i,
    {
        let q = if i > 0 {
            if pos < b.len() && b[pos] == 46 {
                pos + 1
            } else {
                return None;
            }
        } else {
            pos
        };
        match octet_at_exec(b, q) {
            Some(e) => {
                pos = e;
            },
            None => {
                return None;
            },
        }
        i = i + 1;
    }
    Some(pos)
}

fn hex_group_exec(b: &[u8], p: usize) -> (r: Option<usize>)
    requires
        p <= b@.len(),
    ensures
        r matches Some(e) ==> hex_group(b@, p as int) == Some(e as int) && e <= b@.len(),
        r is None ==> hex_group(b@, p as int) is None,
{
    let e = hex_end_exec(b, p);
    if e - p >= 1 && e - p <= 4 {
        Some(e)
    } else {
        None
    }
}

fn groups_exec(b: &[u8], p: usize, i: usize, limit: usize) -> (r: (usize, bool, usize))
    requires
        p <= b@.len(),
        i <= limit <= 8,
    ensures
        (r.0 as int, r.1, r.2 as int) == groups(b@, p as int, i as int, limit as int),
        r.2 <= b@.len(),
        r.0 <= limit,
    decreases limit - i,
{
    if i >= limit {
        return (i, false, p);
    }
    let q = if i > 0 {
        if p < b.len() && b[p] == 58 {
            p + 1
        } else {
            return (i, false, p);
        }
    } else {
        p
    };
    if i < limit - 1 {
        match octets_exec(b, q) {
            Some(e) => {
                return (i + 2, true, e);
            },
            None => {},
        }
    }
    match hex_group_exec(b, q) {
        Some(e) => groups_exec(b, e, i + 1, limit),
        None => (i, false, p),
    }
}

/// Whether the bytes are an IP address literal.
pub fn is_ip_literal(b: &[u8]) -> (r: bool)
    ensures
        r == ip_literal(b@),
{
    match octets_exec(b, 0) {
        Some(e) => {
            return e == b.len();
        },
        None => {},
    }
    let (hs, h4, hp) = groups_exec(b, 0, 0, 8);
    if hs == 8 {
        hp == b.len()
    } else if h4 {
        false
    } else if hp < b.len() && b.len() - hp >= 2 && b[hp] == 58 && b[hp + 1] == 58 {
        let (_, _, tp) = groups_exec(b, hp + 2, 0, 7 - hs);
        tp == b.len()
    } else {
        false
    }
}

/// `InetAddresses.isInetAddress` on the target text.
pub fn is_inet_address(target: &str) -> (r: bool)
    ensures
        r == ip_literal(target.spec_bytes()),
{
    let bytes = bytes_of(target);
    is_ip_literal(bytes.as_slice())
}

#[derive(Debug, Clone, PartialEq, Eq)]
pub enum PardonIpError {
    Invalid,
    NotBanned,
}

#[derive(Debug, Clone, PartialEq, Eq)]
pub struct PardonIpOutput {
    pub success_count: i32,
    pub feedback_key: &'static str,
    pub removed_ip: String,
    pub broadcast_to_admins: bool,
}

/// The target appears in the ban list.
pub open spec fn banned(target: Seq<char>, banned_ips: Seq<String>) -> bool {
    exists|i: int| 0 <= i < banned_ips.len() && (#[trigger] banned_ips[i])@ == target
}

/// Takes the target off the ban list: an IP address literal that is on it.
pub fn pardon_ip(target: &str, banned_ips: &[String]) -> (r: Result<PardonIpOutput, PardonIpError>)
    ensures
        !ip_literal(target.spec_bytes()) ==> r == Err::<PardonIpOutput, PardonIpError>(PardonIpError::Invalid),
        ip_literal(target.spec_bytes()) && !banned(target@, banned_ips@)
            ==> r == Err::<PardonIpOutput, PardonIpError>(PardonIpError::NotBanned),
        ip_literal(target.spec_bytes()) && banned(target@, banned_ips@) ==> r is Ok
            && r->Ok_0.success_count == 1
            && r->Ok_0.feedback_key@ == "commands.pardonip.success"@
            && r->Ok_0.removed_ip@ == target@
            && r->Ok_0.broadcast_to_admins,
{
    if !is_inet_address(target) {
        return Err(PardonIpError::Invalid);
    }
    let mut found = false;
    let mut i: usize = 0;
    while i < banned_ips.len()
        invariant
            0 <= i <= banned_ips@.len(),
            found == exists|j: int| 0 <= j < i && (#[trigger] banned_ips@[j])@ == target@,
        decreases banned_ips@.len() - i,
    {
        if str_eq(banned_ips[i].as_str(), target) {
            found = true;
        }
        i = i + 1;
    }
    if !found {
        return Err(PardonIpError::NotBanned);
    }
    Ok(PardonIpOutput {
        success_count: 1,
        feedback_key: "commands.pardonip.success",
        removed_ip: target.to_string(),
        broadcast_to_admins: true,
    })
}

} // verus!
