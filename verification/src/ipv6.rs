use vstd::prelude::*;

use std::str::FromStr;

verus! {

/// What ipnet's sixteen-byte network parser accepts on a byte string, as
/// address value and prefix length; nothing when the bytes are not UTF-8 or
/// not a well-formed network in that grammar.
pub uninterp spec fn ipv6_net_of(s: Seq<u8>) -> Option<(u128, u8)>;

/// The canonical text of a sixteen-byte address value.
pub uninterp spec fn ipv6_text_of(v: u128) -> Seq<u8>;

/// Relies on ipnet::Ipv6Net::from_str: it parses the whole text as
/// "address/prefix" with a prefix length of at most 128, keeps the address
/// as written, and its result depends on the bytes alone.
#[verifier::external_body]
pub fn parse_ipv6_net(s: &[u8]) -> (r: Option<(u128, u8)>)
    ensures
        r == ipv6_net_of(s@),
        r matches Some(ap) ==> ap.1 <= 128,
{
    let text = match core::str::from_utf8(s) {
        Ok(t) => t,
        Err(_) => return None,
    };
    match ipnet::Ipv6Net::from_str(text) {
        Ok(n) => Some((n.addr().into(), n.prefix_len())),
        Err(_) => None,
    }
}

/// Relies on ipnet::Ipv6Net::new and the display of the address it carries:
/// the canonical text of a sixteen-byte address, a function of the value
/// alone.  Relies further on ipnet::Ipv6Net::from_str reading that
/// canonical text back: the rendered text, followed by the one-address
/// prefix, parses to exactly the value it was rendered from, so distinct
/// values render to distinct texts.
#[verifier::external_body]
pub fn format_ipv6(v: u128) -> (r: Vec<u8>)
    ensures
        r@ == ipv6_text_of(v),
        ipv6_net_of(r@ + slash128()) == Some((v, 128u8)),
{
    let net = match ipnet::Ipv6Net::new(v.into(), 128) {
        Ok(n) => n,
        Err(_) => return Vec::new(),
    };
    format!("{}", net.addr()).into_bytes()
}

/// The "/128" suffix that turns a bare address into a one-address network.
pub open spec fn slash128() -> Seq<u8> {
    seq![0x2fu8, 0x31u8, 0x32u8, 0x38u8]
}

/// A bare sixteen-byte address: what the network grammar accepts once the
/// one-address prefix is appended.
pub open spec fn ipv6_addr_of(s: Seq<u8>) -> Option<u128> {
    match ipv6_net_of(s + slash128()) {
        Some(ap) => Some(ap.0),
        None => None,
    }
}

/// Parse a bare sixteen-byte address by handing the parser the one-address
/// network formed from it.
pub fn parse_ipv6_addr(s: &[u8]) -> (r: Option<u128>)
    ensures
        r == ipv6_addr_of(s@),
{
    let mut t: Vec<u8> = Vec::new();
    let mut k: usize = 0;
    while k < s.len()
        invariant
            k <= s@.len(),
            t@ == s@.subrange(0, k as int),
        decreases s@.len() - k,
    {
        t.push(s[k]);
        proof {
            assert(s@.subrange(0, k as int).push(s@[k as int]) =~= s@.subrange(0, k + 1));
        }
        k = k + 1;
    }
    t.push(0x2f);
    t.push(0x31);
    t.push(0x32);
    t.push(0x38);
    assert(t@ =~= s@ + slash128());
    match parse_ipv6_net(t.as_slice()) {
        Some(ap) => Some(ap.0),
        None => None,
    }
}

} // verus!
