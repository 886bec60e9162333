use vstd::prelude::*;

verus! {

/// Compare two byte strings.
pub fn bytes_eq(a: &[u8], b: &[u8]) -> (r: bool)
    ensures
        r == (a@ == b@),
{
    if a.len() != b.len() {
        proof {
            assert(a@.len() != b@.len());
        }
        return false;
    }
    let mut k: usize = 0;
    while k < a.len()
        invariant
            k <= a@.len() == b@.len(),
            forall|i: int| 0 <= i < k ==> a@[i] == b@[i],
        decreases a@.len() - k,
    {
        if a[k] != b[k] {
            return false;
        }
        k = k + 1;
    }
    proof {
        assert(a@ =~= b@);
    }
    true
}

/// Whether an HTTP status code counts as a successful probe: the 2xx and
/// 3xx ranges; only a status outside them is a failure.
pub open spec fn is_success_status(code: u16) -> bool {
    200 <= code < 400
}

/// The reachability decision for one URL probe: a transport failure carries
/// no status and fails; a response succeeds exactly when its status is 2xx
/// or 3xx.
pub fn url_outcome(status: Option<u16>) -> (r: bool)
    ensures
        r == (status matches Some(c) && is_success_status(c)),
{
    match status {
        Some(c) => 200 <= c && c < 400,
        None => false,
    }
}

/// Whether certificate verification is to be disabled for a run: exactly
/// when it was not asked for.
pub fn accept_invalid_certs(verify_tls: bool) -> (r: bool)
    ensures
        r == !verify_tls,
{
    !verify_tls
}

/// The reverse-lookup decision for one address probe.  A failed lookup is
/// no result; a lookup that merely echoes the address text back has no real
/// reverse mapping and is no result either; any other name is a success.
pub fn resolve_outcome(ip_text: &[u8], resolved: Option<Vec<u8>>) -> (r: Option<Vec<u8>>)
    ensures
        r is Some <==> (resolved matches Some(h) && h@ != ip_text@),
        r matches Some(h) ==> resolved matches Some(h2) && h@ == h2@,
{
    match resolved {
        Some(h) => {
            if bytes_eq(h.as_slice(), ip_text) {
                None
            } else {
                Some(h)
            }
        },
        None => None,
    }
}

/// Diagnostic verbosity, decided by how often the flag was given.
#[derive(PartialEq, Eq, Structural, Clone, Copy, Debug)]
pub enum LogLevel {
    Info,
    Debug,
    Trace,
}

pub open spec fn level_of(v: u64) -> LogLevel {
    if v > 2 {
        LogLevel::Trace
    } else if v > 1 {
        LogLevel::Debug
    } else {
        LogLevel::Info
    }
}

pub fn verbosity_level(v: u64) -> (r: LogLevel)
    ensures
        r == level_of(v),
{
    if v > 2 {
        LogLevel::Trace
    } else if v > 1 {
        LogLevel::Debug
    } else {
        LogLevel::Info
    }
}

} // verus!
