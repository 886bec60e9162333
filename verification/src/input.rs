use vstd::prelude::*;

use crate::text::{
    contains_byte,
    dec_value,
    digits_end,
    find_from,
    trim_of,
    scan_digits,
    dec_value_upto3,
    find_byte_from,
    has_byte,
    trim,
    lemma_digits_end,
    lemma_find_from,
};
use crate::ipv4::{parse_v4, v4_text, parse_v4_exec, format_v4, lemma_v4_text_injective};
use crate::ipv6::{
    ipv6_net_of,
    ipv6_addr_of,
    ipv6_text_of,
    parse_ipv6_net,
    parse_ipv6_addr,
    format_ipv6,
    slash128,
};
use crate::expand::{
    addr_run,
    v4_hosts,
    v6_hosts,
    run_u32,
    run_u128,
    expand_cidr4,
    expand_cidr6,
};
use vstd::slice::slice_subrange;

verus! {

/// Why an input specification was refused.  A malformed specification is
/// fatal for the run; an expansion too large for the machine is refused
/// rather than attempted.
#[derive(PartialEq, Eq, Structural, Clone, Copy, Debug)]
pub enum ParseError {
    BadCidr,
    BadRange,
    BadAddress,
    TooLarge,
}

/// A network specification: an address part before the first slash, in the
/// lenient octet grammar, and a prefix part of one or two digits below 33.
pub open spec fn parse_v4_net(s: Seq<u8>) -> Option<(u32, nat)> {
    let k = find_from(s, 0x2f, 0);
    if k >= s.len() {
        None
    } else {
        match parse_v4(s.subrange(0, k), true) {
            Some(a) => {
                let j = digits_end(s, k + 1);
                if j == s.len() && k + 1 < j && j - (k + 1) <= 2 && dec_value(s, k + 1, j) < 33 {
                    Some((a, dec_value(s, k + 1, j)))
                } else {
                    None
                }
            },
            None => None,
        }
    }
}

/// What an address-range specification expands to: the two endpoints are
/// split at the first two dashes, trimmed, read in the family the first
/// part's colon decides, and the inclusive ascending run between them is
/// rendered in canonical text.
pub open spec fn range_targets_of(s: Seq<u8>) -> Result<Seq<Seq<u8>>, ParseError> {
    let d1 = find_from(s, 0x2d, 0);
    let d2 = find_from(s, 0x2d, d1 + 1);
    let e1 = trim_of(s.subrange(0, d1));
    let e2 = trim_of(s.subrange(d1 + 1, d2));
    if contains_byte(s.subrange(0, d1), 0x3a) {
        match (ipv6_addr_of(e1), ipv6_addr_of(e2)) {
            (Some(a), Some(b)) => {
                let run = addr_run(a as int, b as int);
                if run.len() > usize::MAX {
                    Err(ParseError::TooLarge)
                } else {
                    Ok(run.map_values(|x: int| ipv6_text_of(x as u128)))
                }
            },
            _ => Err(ParseError::BadRange),
        }
    } else {
        match (parse_v4(e1, false), parse_v4(e2, false)) {
            (Some(a), Some(b)) => {
                let run = addr_run(a as int, b as int);
                if run.len() > usize::MAX {
                    Err(ParseError::TooLarge)
                } else {
                    Ok(run.map_values(|x: int| v4_text(x as u32)))
                }
            },
            _ => Err(ParseError::BadRange),
        }
    }
}

/// What one input specification expands to.  A slash makes it a network,
/// whose usable hosts are enumerated; else a dash makes it a range; else it
/// is one atomic address.  Every target is the canonical text of its
/// address.
pub open spec fn ip_targets_of(s: Seq<u8>) -> Result<Seq<Seq<u8>>, ParseError> {
    if contains_byte(s, 0x2f) {
        match parse_v4_net(s) {
            Some(ap) => {
                let hosts = v4_hosts(ap.0, ap.1);
                if hosts.len() > usize::MAX {
                    Err(ParseError::TooLarge)
                } else {
                    Ok(hosts.map_values(|x: int| v4_text(x as u32)))
                }
            },
            None => match ipv6_net_of(s) {
                Some(ap) => {
                    let hosts = v6_hosts(ap.0, ap.1 as nat);
                    if hosts.len() > usize::MAX {
                        Err(ParseError::TooLarge)
                    } else {
                        Ok(hosts.map_values(|x: int| ipv6_text_of(x as u128)))
                    }
                },
                None => Err(ParseError::BadCidr),
            },
        }
    } else if contains_byte(s, 0x2d) {
        range_targets_of(s)
    } else {
        match parse_v4(s, false) {
            Some(a) => Ok(seq![v4_text(a)]),
            None => match ipv6_addr_of(s) {
                Some(v) => Ok(seq![ipv6_text_of(v)]),
                None => Err(ParseError::BadAddress),
            },
        }
    }
}

/// Parse a network specification.
pub fn parse_v4_net_exec(s: &[u8]) -> (r: Option<(u32, u8)>)
    ensures
        r is Some <==> parse_v4_net(s@) is Some,
        r matches Some(ap) ==> parse_v4_net(s@) == Some((ap.0, ap.1 as nat)) && ap.1 <= 32,
{
    let k = find_byte_from(s, 0x2f, 0);
    proof {
        lemma_find_from(s@, 0x2f, 0);
    }
    if k >= s.len() {
        return None;
    }
    let addr_part = slice_subrange(s, 0, k);
    let a = match parse_v4_exec(addr_part, true) {
        Some(a) => a,
        None => {
            return None;
        },
    };
    proof {
        lemma_digits_end(s@, k + 1);
    }
    let j = scan_digits(s, k + 1);
    if !(j == s.len() && k + 1 < j && j - (k + 1) <= 2) {
        return None;
    }
    let p = dec_value_upto3(s, k + 1, j);
    if p < 33 {
        Some((a, p as u8))
    } else {
        None
    }
}

/// Render four-byte address values as dotted-quad targets; distinct
/// addresses give distinct targets.
fn render_v4_targets(hosts: &Vec<u32>) -> (r: Vec<Vec<u8>>)
    ensures
        r@.len() == hosts@.len(),
        forall|i: int| 0 <= i < r@.len() ==> (#[trigger] r@[i])@ == v4_text(hosts@[i]),
        forall|i: int, j: int|
            #![trigger r@[i], r@[j]]
            0 <= i < r@.len() && 0 <= j < r@.len() && hosts@[i] != hosts@[j] ==> (r@[i])@ != (
            r@[j])@,
{
    let mut out: Vec<Vec<u8>> = Vec::new();
    let mut k: usize = 0;
    while k < hosts.len()
        invariant
            k <= hosts@.len(),
            out@.len() == k,
            forall|i: int| 0 <= i < k ==> (#[trigger] out@[i])@ == v4_text(hosts@[i]),
        decreases hosts@.len() - k,
    {
        out.push(format_v4(hosts[k]));
        k = k + 1;
    }
    proof {
        assert forall|i: int, j: int|
            0 <= i < out@.len() && 0 <= j < out@.len() && hosts@[i] != hosts@[j] implies (out@[i])@
            != (out@[j])@ by {
            lemma_v4_text_injective(hosts@[i], hosts@[j]);
        }
    }
    out
}

/// Render sixteen-byte address values as canonical-text targets.  Each
/// target reads back as the one-address network of the value it was
/// rendered from, so distinct addresses give distinct targets.
fn render_v6_targets(hosts: &Vec<u128>) -> (r: Vec<Vec<u8>>)
    ensures
        r@.len() == hosts@.len(),
        forall|i: int| 0 <= i < r@.len() ==> (#[trigger] r@[i])@ == ipv6_text_of(hosts@[i]),
        forall|i: int|
            0 <= i < r@.len() ==> ipv6_net_of((#[trigger] r@[i])@ + slash128()) == Some(
                (hosts@[i], 128u8),
            ),
        forall|i: int, j: int|
            #![trigger r@[i], r@[j]]
            0 <= i < r@.len() && 0 <= j < r@.len() && hosts@[i] != hosts@[j] ==> (r@[i])@ != (
            r@[j])@,
{
    let mut out: Vec<Vec<u8>> = Vec::new();
    let mut k: usize = 0;
    while k < hosts.len()
        invariant
            k <= hosts@.len(),
            out@.len() == k,
            forall|i: int| 0 <= i < k ==> (#[trigger] out@[i])@ == ipv6_text_of(hosts@[i]),
            forall|i: int|
                0 <= i < k ==> ipv6_net_of((#[trigger] out@[i])@ + slash128()) == Some(
                    (hosts@[i], 128u8),
                ),
        decreases hosts@.len() - k,
    {
        out.push(format_ipv6(hosts[k]));
        k = k + 1;
    }
    proof {
        assert forall|i: int, j: int|
            0 <= i < out@.len() && 0 <= j < out@.len() && hosts@[i] != hosts@[j] implies (out@[i])@
            != (out@[j])@ by {
            assert(ipv6_net_of((out@[i])@ + slash128()) == Some((hosts@[i], 128u8)));
            assert(ipv6_net_of((out@[j])@ + slash128()) == Some((hosts@[j], 128u8)));
        }
    }
    out
}

/// Expand one input specification into its probe targets, or say exactly
/// why it is refused.
pub fn ip_targets(line: &[u8]) -> (r: Result<Vec<Vec<u8>>, ParseError>)
    ensures
        (match (r, ip_targets_of(line@)) {
            (Ok(v), Ok(t)) => v@.len() == t.len() && (forall|i: int|
                0 <= i < t.len() ==> (#[trigger] v@[i])@ == t[i]),
            (Err(e), Err(e2)) => e == e2,
            _ => false,
        }),
        r matches Ok(v) ==> (forall|i: int, j: int|
            #![trigger v@[i], v@[j]]
            0 <= i < j < v@.len() ==> (v@[i])@ != (v@[j])@),
{
    if has_byte(line, 0x2f) {
        match parse_v4_net_exec(line) {
            Some((a, p)) => {
                match expand_cidr4(a, p) {
                    Some(hosts) => {
                        let out = render_v4_targets(&hosts);
                        proof {
                            let hs = v4_hosts(a, p as nat);
                            let texts = hs.map_values(|x: int| v4_text(x as u32));
                            assert(hosts@.map_values(|x: u32| x as int) == hs);
                            assert forall|i: int| 0 <= i < texts.len() implies (#[trigger] out@[i])@
                                == texts[i] by {
                                assert(hosts@.map_values(|x: u32| x as int)[i] == hs[i]);
                            }
                            assert forall|i: int, j: int|
                                0 <= i < j < out@.len() implies (out@[i])@ != (out@[j])@ by {
                                assert(hosts@[i] < hosts@[j]);
                            }
                        }
                        Ok(out)
                    },
                    None => Err(ParseError::TooLarge),
                }
            },
            None => {
                match parse_ipv6_net(line) {
                    Some((a, p)) => {
                        match expand_cidr6(a, p) {
                            Some(hosts) => {
                                let out = render_v6_targets(&hosts);
                                proof {
                                    let hs = v6_hosts(a, p as nat);
                                    let texts = hs.map_values(|x: int| ipv6_text_of(x as u128));
                                    assert forall|i: int|
                                        0 <= i < texts.len() implies (#[trigger] out@[i])@
                                        == texts[i] by {
                                        assert(hosts@.map_values(|x: u128| x as int)[i] == hs[i]);
                                    }
                                    assert forall|i: int, j: int|
                                        0 <= i < j < out@.len() implies (out@[i])@ != (out@[j])@ by {
                                        assert(hosts@[i] < hosts@[j]);
                                    }
                                }
                                Ok(out)
                            },
                            None => Err(ParseError::TooLarge),
                        }
                    },
                    None => Err(ParseError::BadCidr),
                }
            },
        }
    } else if has_byte(line, 0x2d) {
        range_targets(line)
    } else {
        match parse_v4_exec(line, false) {
            Some(a) => {
                let mut out: Vec<Vec<u8>> = Vec::new();
                out.push(format_v4(a));
                Ok(out)
            },
            None => {
                match parse_ipv6_addr(line) {
                    Some(v) => {
                        let mut out: Vec<Vec<u8>> = Vec::new();
                        out.push(format_ipv6(v));
                        Ok(out)
                    },
                    None => Err(ParseError::BadAddress),
                }
            },
        }
    }
}

/// Expand an address-range specification.
fn range_targets(line: &[u8]) -> (r: Result<Vec<Vec<u8>>, ParseError>)
    requires
        contains_byte(line@, 0x2d),
    ensures
        (match (r, range_targets_of(line@)) {
            (Ok(v), Ok(t)) => v@.len() == t.len() && (forall|i: int|
                0 <= i < t.len() ==> (#[trigger] v@[i])@ == t[i]),
            (Err(e), Err(e2)) => e == e2,
            _ => false,
        }),
        r matches Ok(v) ==> (forall|i: int, j: int|
            #![trigger v@[i], v@[j]]
            0 <= i < j < v@.len() ==> (v@[i])@ != (v@[j])@),
{
    let n = line.len();
    let d1 = find_byte_from(line, 0x2d, 0);
    proof {
        lemma_find_from(line@, 0x2d, 0);
        assert(d1 < n);
    }
    let d2 = find_byte_from(line, 0x2d, d1 + 1);
    proof {
        lemma_find_from(line@, 0x2d, d1 + 1);
    }
    let e1 = trim(line, 0, d1);
    let e2 = trim(line, d1 + 1, d2);
    let head = slice_subrange(line, 0, d1);
    if has_byte(head, 0x3a) {
        let a = parse_ipv6_addr(e1.as_slice());
        let b = parse_ipv6_addr(e2.as_slice());
        match (a, b) {
            (Some(a), Some(b)) => {
                match run_u128(a, b) {
                    Some(hosts) => {
                        let out = render_v6_targets(&hosts);
                        proof {
                            let run = addr_run(a as int, b as int);
                            let texts = run.map_values(|x: int| ipv6_text_of(x as u128));
                            crate::expand::lemma_addr_run_exact(a as int, b as int);
                            assert forall|i: int| 0 <= i < texts.len() implies (#[trigger] out@[i])@
                                == texts[i] by {
                                assert(hosts@.map_values(|x: u128| x as int)[i] == run[i]);
                            }
                            assert forall|i: int, j: int|
                                0 <= i < j < out@.len() implies (out@[i])@ != (out@[j])@ by {
                                assert(hosts@[i] < hosts@[j]);
                            }
                        }
                        Ok(out)
                    },
                    None => Err(ParseError::TooLarge),
                }
            },
            _ => Err(ParseError::BadRange),
        }
    } else {
        let a = parse_v4_exec(e1.as_slice(), false);
        let b = parse_v4_exec(e2.as_slice(), false);
        match (a, b) {
            (Some(a), Some(b)) => {
                match run_u32(a, b) {
                    Some(hosts) => {
                        let out = render_v4_targets(&hosts);
                        proof {
                            let run = addr_run(a as int, b as int);
                            let texts = run.map_values(|x: int| v4_text(x as u32));
                            crate::expand::lemma_addr_run_exact(a as int, b as int);
                            assert forall|i: int| 0 <= i < texts.len() implies (#[trigger] out@[i])@
                                == texts[i] by {
                                assert(hosts@.map_values(|x: u32| x as int)[i] == run[i]);
                            }
                            assert forall|i: int, j: int|
                                0 <= i < j < out@.len() implies (out@[i])@ != (out@[j])@ by {
                                assert(hosts@[i] < hosts@[j]);
                            }
                        }
                        Ok(out)
                    },
                    None => Err(ParseError::TooLarge),
                }
            },
            _ => Err(ParseError::BadRange),
        }
    }
}

} // verus!
