use vstd::prelude::*;

use vstd::arithmetic::power2::{
    pow2,
    lemma_pow2_adds,
    lemma_pow2_pos,
    lemma_pow2_strictly_increases,
    lemma_pow2_unfold,
    lemma2_to64,
};
use vstd::arithmetic::div_mod::{
    lemma_fundamental_div_mod,
    lemma_mod_division_less_than_divisor,
    lemma_small_mod,
};

verus! {

/// The number of addresses in the block a prefix length covers, in a
/// `bits`-bit address family.
pub open spec fn block_of(p: nat, bits: nat) -> nat
    recommends
        p <= bits,
{
    pow2((bits - p) as nat)
}

/// Network (lowest) address of the block that holds `a`.
pub open spec fn net_of(a: int, p: nat, bits: nat) -> int {
    a - a % (block_of(p, bits) as int)
}

/// Highest address of the block that holds `a` (the broadcast address, for
/// the four-byte family).
pub open spec fn bcast_of(a: int, p: nat, bits: nat) -> int {
    net_of(a, p, bits) + block_of(p, bits) - 1
}

/// The inclusive ascending run of address values from `lo` to `hi`.
pub open spec fn addr_run(lo: int, hi: int) -> Seq<int> {
    if lo <= hi {
        Seq::new((hi - lo + 1) as nat, |i: int| lo + i)
    } else {
        Seq::empty()
    }
}

/// Usable four-byte hosts: the block without its network and broadcast
/// addresses, except that the two shortest prefixes keep the whole block.
pub open spec fn v4_hosts(a: u32, p: nat) -> Seq<int> {
    if p < 31 {
        addr_run(net_of(a as int, p, 32) + 1, bcast_of(a as int, p, 32) - 1)
    } else {
        addr_run(net_of(a as int, p, 32), bcast_of(a as int, p, 32))
    }
}

/// Usable sixteen-byte hosts: the whole block.
pub open spec fn v6_hosts(a: u128, p: nat) -> Seq<int> {
    addr_run(net_of(a as int, p, 128), bcast_of(a as int, p, 128))
}

/// Block bounds: the network address is aligned below `a`, the top of the
/// block is above `a`, and the whole block stays inside the family.
pub proof fn lemma_block_bounds(a: int, p: nat, bits: nat)
    requires
        p <= bits,
        0 <= a < pow2(bits),
    ensures
        0 < block_of(p, bits),
        0 <= a % (block_of(p, bits) as int) < block_of(p, bits),
        0 <= net_of(a, p, bits) <= a <= bcast_of(a, p, bits),
        bcast_of(a, p, bits) < pow2(bits),
{
    let bs = block_of(p, bits) as int;
    let k = pow2(p) as int;
    lemma_pow2_pos((bits - p) as nat);
    lemma_pow2_pos(p);
    lemma_pow2_adds(p, (bits - p) as nat);
    lemma_fundamental_div_mod(a, bs);
    lemma_mod_division_less_than_divisor(a, bs);
    let q = a / bs;
    let r = a % bs;
    assert(a - r + bs <= k * bs) by (nonlinear_arith)
        requires
            a == bs * q + r,
            0 <= r < bs,
            a < k * bs,
            0 < bs,
    ;
}

/// The run from `lo` to `hi` holds exactly the addresses between them, each
/// exactly once, in strictly ascending order with no gaps.
pub proof fn lemma_addr_run_exact(lo: int, hi: int)
    ensures
        lo <= hi ==> addr_run(lo, hi).len() == hi - lo + 1,
        lo > hi ==> addr_run(lo, hi).len() == 0,
        forall|i: int| 0 <= i < addr_run(lo, hi).len() ==> addr_run(lo, hi)[i] == lo + i,
        forall|x: int| addr_run(lo, hi).contains(x) <==> lo <= x <= hi,
        forall|i: int, j: int|
            0 <= i < j < addr_run(lo, hi).len() ==> addr_run(lo, hi)[i] < addr_run(lo, hi)[j],
{
    let s = addr_run(lo, hi);
    assert forall|x: int| lo <= x <= hi implies s.contains(x) by {
        assert(s[x - lo] == x);
    }
}

/// Law: a usable-host enumeration for a prefix that leaves room for a
/// network and a broadcast address yields exactly the addresses strictly
/// between them, each once, ascending.
pub proof fn lemma_v4_hosts_exact(a: u32, p: nat)
    requires
        p <= 30,
    ensures
        forall|x: int|
            v4_hosts(a, p).contains(x) <==> net_of(a as int, p, 32) < x < bcast_of(a as int, p, 32),
        v4_hosts(a, p).len() == block_of(p, 32) - 2,
        forall|i: int, j: int|
            0 <= i < j < v4_hosts(a, p).len() ==> v4_hosts(a, p)[i] < v4_hosts(a, p)[j],
{
    lemma2_to64();
    lemma_block_bounds(a as int, p, 32);
    if p < 30 {
        lemma_pow2_strictly_increases(2, (32 - p) as nat);
    }
    assert(block_of(p, 32) >= 4);
    lemma_addr_run_exact(net_of(a as int, p, 32) + 1, bcast_of(a as int, p, 32) - 1);
}

/// Law: a sixteen-byte host enumeration yields the whole block, each
/// address once, ascending.
pub proof fn lemma_v6_hosts_exact(a: u128, p: nat)
    requires
        p <= 128,
    ensures
        forall|x: int|
            v6_hosts(a, p).contains(x) <==> net_of(a as int, p, 128) <= x <= bcast_of(
                a as int,
                p,
                128,
            ),
        v6_hosts(a, p).len() == block_of(p, 128),
        forall|i: int, j: int|
            0 <= i < j < v6_hosts(a, p).len() ==> v6_hosts(a, p)[i] < v6_hosts(a, p)[j],
{
    lemma_pow2_adds(64, 64);
    lemma2_to64();
    lemma_block_bounds(a as int, p, 128);
    lemma_addr_run_exact(net_of(a as int, p, 128), bcast_of(a as int, p, 128));
}

/// 2 to the power `k`, executable.
fn pow2_u128(k: u8) -> (r: u128)
    requires
        k <= 127,
    ensures
        r == pow2(k as nat),
{
    let mut i: u8 = 0;
    let mut r: u128 = 1;
    proof {
        lemma2_to64();
    }
    while i < k
        invariant
            i <= k <= 127,
            r == pow2(i as nat),
        decreases k - i,
    {
        proof {
            lemma_pow2_unfold((i + 1) as nat);
            if ((i + 1) as nat) < 127 {
                lemma_pow2_strictly_increases((i + 1) as nat, 127);
            }
            lemma_pow2_adds(64, 63);
            lemma2_to64();
            vstd::arithmetic::power2::lemma2_to64_rest();
            assert(pow2(127) == 0x80000000000000000000000000000000);
        }
        r = r * 2;
        i = i + 1;
    }
    r
}

/// The inclusive ascending run of sixteen-byte addresses from `lo` to `hi`,
/// or nothing when its length would not fit the machine.
pub fn run_u128(lo: u128, hi: u128) -> (r: Option<Vec<u128>>)
    ensures
        r is Some <==> addr_run(lo as int, hi as int).len() <= usize::MAX,
        r matches Some(v) ==> v@.map_values(|x: u128| x as int) == addr_run(lo as int, hi as int),
        r matches Some(v) ==> (forall|i: int, j: int|
            #![trigger v@[i], v@[j]]
            0 <= i < j < v@.len() ==> v@[i] < v@[j]),
{
    proof {
        lemma_addr_run_exact(lo as int, hi as int);
    }
    if lo > hi {
        let v: Vec<u128> = Vec::new();
        assert(v@.map_values(|x: u128| x as int) =~= addr_run(lo as int, hi as int));
        return Some(v);
    }
    if hi - lo >= usize::MAX as u128 {
        return None;
    }
    let mut v: Vec<u128> = Vec::new();
    let mut cur: u128 = lo;
    while cur < hi
        invariant
            lo <= cur <= hi,
            v@.len() == cur - lo,
            forall|i: int| 0 <= i < v@.len() ==> v@[i] == lo + i,
        decreases hi - cur,
    {
        v.push(cur);
        cur = cur + 1;
    }
    v.push(hi);
    assert(v@.map_values(|x: u128| x as int) =~= addr_run(lo as int, hi as int));
    proof {
        let m = v@.map_values(|x: u128| x as int);
        assert forall|i: int, j: int| 0 <= i < j < v@.len() implies v@[i] < v@[j] by {
            assert(m[i] == addr_run(lo as int, hi as int)[i]);
            assert(m[j] == addr_run(lo as int, hi as int)[j]);
        }
    }
    Some(v)
}

/// The inclusive ascending run of four-byte addresses from `lo` to `hi`,
/// or nothing when its length would not fit the machine.
pub fn run_u32(lo: u32, hi: u32) -> (r: Option<Vec<u32>>)
    ensures
        r is Some <==> addr_run(lo as int, hi as int).len() <= usize::MAX,
        r matches Some(v) ==> v@.map_values(|x: u32| x as int) == addr_run(lo as int, hi as int),
        r matches Some(v) ==> (forall|i: int, j: int|
            #![trigger v@[i], v@[j]]
            0 <= i < j < v@.len() ==> v@[i] < v@[j]),
{
    proof {
        lemma_addr_run_exact(lo as int, hi as int);
    }
    if lo > hi {
        let v: Vec<u32> = Vec::new();
        assert(v@.map_values(|x: u32| x as int) =~= addr_run(lo as int, hi as int));
        return Some(v);
    }
    if (hi - lo) as u64 >= usize::MAX as u64 {
        return None;
    }
    let mut v: Vec<u32> = Vec::new();
    let mut cur: u32 = lo;
    while cur < hi
        invariant
            lo <= cur <= hi,
            v@.len() == cur - lo,
            forall|i: int| 0 <= i < v@.len() ==> v@[i] == lo + i,
        decreases hi - cur,
    {
        v.push(cur);
        cur = cur + 1;
    }
    v.push(hi);
    assert(v@.map_values(|x: u32| x as int) =~= addr_run(lo as int, hi as int));
    proof {
        let m = v@.map_values(|x: u32| x as int);
        assert forall|i: int, j: int| 0 <= i < j < v@.len() implies v@[i] < v@[j] by {
            assert(m[i] == addr_run(lo as int, hi as int)[i]);
            assert(m[j] == addr_run(lo as int, hi as int)[j]);
        }
    }
    Some(v)
}

/// Expand a four-byte network to its usable hosts, ascending, or nothing
/// when their number would not fit the machine.
pub fn expand_cidr4(a: u32, p: u8) -> (r: Option<Vec<u32>>)
    requires
        p <= 32,
    ensures
        r is Some <==> v4_hosts(a, p as nat).len() <= usize::MAX,
        r matches Some(v) ==> v@.map_values(|x: u32| x as int) == v4_hosts(a, p as nat),
        r matches Some(v) ==> (forall|i: int, j: int|
            #![trigger v@[i], v@[j]]
            0 <= i < j < v@.len() ==> v@[i] < v@[j]),
{
    proof {
        lemma2_to64();
        lemma_block_bounds(a as int, p as nat, 32);
    }
    let bs: u128 = pow2_u128(32 - p);
    let a128: u128 = a as u128;
    let net: u128 = a128 - a128 % bs;
    let bcast: u128 = net + bs - 1;
    let (lo, hi) = if p < 31 {
        (net + 1, bcast - 1)
    } else {
        (net, bcast)
    };
    assert(net == net_of(a as int, p as nat, 32));
    assert(bcast == bcast_of(a as int, p as nat, 32));
    if lo > hi {
        // A prefix of 31 or 32 keeps the whole block, and a shorter one has
        // a block of at least four addresses: the run is never empty.
        proof {
            if p < 31 {
                lemma_pow2_strictly_increases(1, (32 - p) as nat);
            }
        }
        assert(false);
    }
    let hosts128 = match run_u128(lo, hi) {
        Some(v) => v,
        None => {
            return None;
        },
    };
    let mut v: Vec<u32> = Vec::new();
    let ghost s = addr_run(lo as int, hi as int);
    proof {
        lemma_addr_run_exact(lo as int, hi as int);
    }
    let mut k: usize = 0;
    while k < hosts128.len()
        invariant
            k <= hosts128@.len(),
            hosts128@.map_values(|x: u128| x as int) == s,
            forall|i: int| 0 <= i < s.len() ==> 0 <= #[trigger] s[i] < 0x100000000,
            v@.len() == k,
            forall|i: int| 0 <= i < v@.len() ==> v@[i] == s[i],
        decreases hosts128@.len() - k,
    {
        assert(hosts128@.map_values(|x: u128| x as int)[k as int] == s[k as int]);
        v.push(hosts128[k] as u32);
        k = k + 1;
    }
    assert(v@.map_values(|x: u32| x as int) =~= s);
    proof {
        assert forall|i: int, j: int| 0 <= i < j < v@.len() implies v@[i] < v@[j] by {
            assert(s[i] < s[j]);
        }
    }
    Some(v)
}

/// Expand a sixteen-byte network to its hosts, ascending, or nothing when
/// their number would not fit the machine.
pub fn expand_cidr6(a: u128, p: u8) -> (r: Option<Vec<u128>>)
    requires
        p <= 128,
    ensures
        r is Some <==> v6_hosts(a, p as nat).len() <= usize::MAX,
        r matches Some(v) ==> v@.map_values(|x: u128| x as int) == v6_hosts(a, p as nat),
        r matches Some(v) ==> (forall|i: int, j: int|
            #![trigger v@[i], v@[j]]
            0 <= i < j < v@.len() ==> v@[i] < v@[j]),
{
    proof {
        lemma_pow2_adds(64, 64);
        lemma2_to64();
        lemma_block_bounds(a as int, p as nat, 128);
    }
    if p == 0 {
        proof {
            lemma_small_mod(a as nat, pow2(128));
        }
        assert(net_of(a as int, 0, 128) == 0);
        return run_u128(0, u128::MAX);
    }
    let bs: u128 = pow2_u128(128 - p);
    let net: u128 = a - a % bs;
    let bcast: u128 = net + (bs - 1);
    run_u128(net, bcast)
}

} // verus!
