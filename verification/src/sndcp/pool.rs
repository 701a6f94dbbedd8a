//! Allocator of IPv4 addresses.

use crate::ipv4::Ipv4Addr;
use crate::sec_packet_data::{CfgPacketData, CfgStaticLease};
use vstd::arithmetic::power2::pow2;
use vstd::prelude::*;

verus! {

/// Number of addresses of a subnet.
pub open spec fn subnet_size(prefix: u8) -> int {
    pow2((32 - prefix) as nat) as int
}

/// One of the leases has this address.
pub open spec fn is_leased(leases: Seq<CfgStaticLease>, a: u32) -> bool {
    exists|i: int| 0 <= i < leases.len() && (#[trigger] leases[i]).ipv4.bits == a
}

/// The pool may hand this address out: it lies inside the subnet, is neither its network
/// nor its broadcast address, and neither the interface nor a lease has it.
pub open spec fn is_assignable(pd: CfgPacketData, a: u32) -> bool {
    let base = pd.ipv4_pool_base.bits;
    &&& base < a < base + subnet_size(pd.ipv4_pool_prefix) - 1
    &&& a != pd.tun_addr.bits
    &&& !is_leased(pd.static_lease@, a)
}

/// Every address that the pool may hand out.
pub open spec fn pool_universe(pd: CfgPacketData) -> Set<u32> {
    Set::new(|a: u32| is_assignable(pd, a))
}

/// A context may get this address: the pool may hand it out, or it is a lease.
pub open spec fn is_grantable(pd: CfgPacketData, a: u32) -> bool {
    is_assignable(pd, a) || is_leased(pd.static_lease@, a)
}

/// The free addresses once a context has given one back. A lease stays out of the pool.
pub open spec fn given_back(pd: CfgPacketData, pool: Set<u32>, a: u32) -> Set<u32> {
    if is_leased(pd.static_lease@, a) {
        pool
    } else {
        pool.insert(a)
    }
}

/// The sequence is strictly increasing.
pub open spec fn increasing(s: Seq<u32>) -> bool {
    forall|i: int, j: int| 0 <= i < j < s.len() ==> #[trigger] s[i] < #[trigger] s[j]
}

/// The addresses that are free.
pub struct Ipv4Pool {
    /// In increasing order.
    available: Vec<u32>,
    base_u32: u32,
    total: u64,
}

impl View for Ipv4Pool {
    type V = Set<u32>;

    closed spec fn view(&self) -> Set<u32> {
        Set::new(|a: u32| self.available@.contains(a))
    }
}

/// See [`subnet_size`].
pub(crate) fn size_of_subnet(prefix: u8) -> (r: u64)
    requires
        prefix <= 32,
    ensures
        r == subnet_size(prefix),
        1 <= r <= 0x1_0000_0000,
{
    let mut r: u64 = 1;
    let mut i: u8 = 32;
    proof {
        vstd::arithmetic::power2::lemma2_to64();
    }
    while i > prefix
        invariant
            prefix <= i <= 32,
            r == pow2((32 - i) as nat),
            1 <= r <= 0x1_0000_0000,
        decreases i,
    {
        proof {
            vstd::arithmetic::power2::lemma2_to64();
            vstd::arithmetic::power2::lemma_pow2_unfold((33 - i) as nat);
            if i > 1 {
                vstd::arithmetic::power2::lemma_pow2_strictly_increases((33 - i) as nat, 32);
            }
        }
        r = r * 2;
        i = i - 1;
    }
    r
}

/// See [`is_leased`].
pub(crate) fn leased(leases: &Vec<CfgStaticLease>, a: u32) -> (r: bool)
    ensures
        r == is_leased(leases@, a),
{
    let mut i: usize = 0;
    while i < leases.len()
        invariant
            i <= leases@.len(),
            forall|j: int| 0 <= j < i ==> (#[trigger] leases@[j]).ipv4.bits != a,
        decreases leases@.len() - i,
    {
        if leases[i].ipv4.bits == a {
            return true;
        }
        i = i + 1;
    }
    false
}

impl Ipv4Pool {
    /// The free addresses are kept in increasing order.
    #[verifier::type_invariant]
    spec fn inv(self) -> bool {
        increasing(self.available@)
    }

    /// First address of the subnet.
    pub closed spec fn base(self) -> u32 {
        self.base_u32
    }

    /// Number of addresses of the subnet.
    pub closed spec fn size(self) -> int {
        self.total as int
    }

    /// The pool of a configuration, with every address free.
    pub fn from_config(pd: &CfgPacketData) -> (r: Ipv4Pool)
        requires
            pd.ipv4_pool_prefix <= 32,
        ensures
            r@ == pool_universe(*pd),
            r.base() == pd.ipv4_pool_base.bits,
            r.size() == subnet_size(pd.ipv4_pool_prefix),
    {
        let base: u64 = pd.ipv4_pool_base.bits as u64;
        let total: u64 = size_of_subnet(pd.ipv4_pool_prefix);
        let end: u64 = base + total;
        let limit: u64 = if end > 0x1_0000_0000 {
            0x1_0000_0000
        } else {
            end - 1
        };
        let mut available: Vec<u32> = Vec::new();
        let mut a: u64 = base + 1;
        while a < limit
            invariant
                limit <= 0x1_0000_0000,
                base == pd.ipv4_pool_base.bits,
                total == subnet_size(pd.ipv4_pool_prefix),
                base < a,
                limit == (if base + total > 0x1_0000_0000 {
                    0x1_0000_0000
                } else {
                    base + total - 1
                }),
                increasing(available@),
                forall|i: int| 0 <= i < available@.len() ==> (#[trigger] available@[i]) < a,
                forall|x: u32|
                    x < a ==> (#[trigger] available@.contains(x) <==> is_assignable(*pd, x)),
            decreases limit - a,
        {
            let ghost before = available@;
            if a != pd.tun_addr.bits as u64 && !leased(&pd.static_lease, a as u32) {
                available.push(a as u32);
                proof {
                    assert forall|i: int, j: int| 0 <= i < j < available@.len() implies #[trigger]
                    available@[i] < #[trigger] available@[j] by {
                        if j == before.len() {
                            assert(before[i] < a);
                        }
                    }
                    assert forall|x: u32| x < a + 1 implies (#[trigger] available@.contains(x)
                        <==> is_assignable(*pd, x)) by {
                        if x == a {
                            assert(available@[before.len() as int] == x);
                        } else {
                            if before.contains(x) {
                                let k = choose|k: int| 0 <= k < before.len() && before[k] == x;
                                assert(available@[k] == x);
                            }
                            if available@.contains(x) {
                                let k = choose|k: int|
                                    0 <= k < available@.len() && available@[k] == x;
                                assert(before[k] == x);
                            }
                            assert(before.contains(x) == available@.contains(x));
                        }
                    }
                }
            } else {
                proof {
                    assert forall|x: u32| x < a + 1 implies (#[trigger] available@.contains(x)
                        <==> is_assignable(*pd, x)) by {
                        if x == a {
                            if available@.contains(x) {
                                let k = choose|k: int|
                                    0 <= k < available@.len() && available@[k] == x;
                                assert(available@[k] < a);
                            }
                        }
                    }
                }
            }
            a = a + 1;
        }
        let r = Ipv4Pool { available, base_u32: pd.ipv4_pool_base.bits, total };
        proof {
            assert forall|x: u32| r@.contains(x) <==> pool_universe(*pd).contains(x) by {
                if x >= a {
                    if available@.contains(x) {
                        let k = choose|k: int| 0 <= k < available@.len() && available@[k] == x;
                        assert(available@[k] < a);
                    }
                } else {
                    assert(available@.contains(x) <==> is_assignable(*pd, x));
                }
            }
            assert(r@ =~= pool_universe(*pd));
        }
        r
    }

    /// Takes the lowest free address.
    pub fn allocate(&mut self) -> (r: Option<Ipv4Addr>)
        ensures
            match r {
                Some(ip) => {
                    &&& old(self)@.contains(ip.bits)
                    &&& forall|a: u32| #[trigger] old(self)@.contains(a) ==> ip.bits <= a
                    &&& final(self)@ == old(self)@.remove(ip.bits)
                },
                None => old(self)@ == Set::<u32>::empty() && final(self)@ == old(self)@,
            },
            final(self).base() == old(self).base(),
            final(self).size() == old(self).size(),
    {
        proof {
            use_type_invariant(&*self);
        }
        let ghost s = self.available@;
        if self.available.len() == 0 {
            assert(self@ =~= Set::<u32>::empty());
            return None;
        }
        let a: u32 = self.available[0];
        let mut rest: Vec<u32> = Vec::new();
        std::mem::swap(&mut rest, &mut self.available);
        rest.remove(0);
        proof {
            lemma_remove_increasing(s, 0);
        }
        self.available = rest;
        proof {
            assert(s.contains(a)) by {
                assert(s[0] == a);
            }
            assert(old(self)@.contains(a));
            assert forall|x: u32| #[trigger] old(self)@.contains(x) implies a <= x by {
                let k = choose|k: int| 0 <= k < s.len() && s[k] == x;
                if k > 0 {
                    assert(s[0] < s[k]);
                }
            }
            assert(self@ =~= old(self)@.remove(a));
        }
        Some(Ipv4Addr::from_bits(a))
    }

    /// Takes the given address, if it is free.
    pub fn allocate_specific(&mut self, ip: Ipv4Addr) -> (r: Option<Ipv4Addr>)
        ensures
            if old(self)@.contains(ip.bits) {
                r == Some(ip) && final(self)@ == old(self)@.remove(ip.bits)
            } else {
                r is None && final(self)@ == old(self)@
            },
            final(self).base() == old(self).base(),
            final(self).size() == old(self).size(),
    {
        proof {
            use_type_invariant(&*self);
        }
        let ghost s = self.available@;
        let mut i: usize = 0;
        while i < self.available.len()
            invariant
                i <= self.available@.len(),
                self.available@ == s,
                *self == *old(self),
                increasing(s),
                forall|j: int| 0 <= j < i ==> s[j] != ip.bits,
            decreases self.available@.len() - i,
        {
            if self.available[i] == ip.bits {
                let mut rest: Vec<u32> = Vec::new();
                std::mem::swap(&mut rest, &mut self.available);
                rest.remove(i);
                proof {
                    lemma_remove_increasing(s, i as int);
                }
                self.available = rest;
                proof {
                    assert(s.contains(ip.bits)) by {
                        assert(s[i as int] == ip.bits);
                    }
                    assert(self@ =~= old(self)@.remove(ip.bits));
                }
                return Some(ip);
            }
            i = i + 1;
        }
        assert(!old(self)@.contains(ip.bits));
        None
    }

    /// Gives an address back.
    pub fn free(&mut self, ip: Ipv4Addr)
        ensures
            final(self)@ == old(self)@.insert(ip.bits),
            final(self).base() == old(self).base(),
            final(self).size() == old(self).size(),
    {
        proof {
            use_type_invariant(&*self);
        }
        let ghost s = self.available@;
        let mut i: usize = 0;
        while i < self.available.len() && self.available[i] < ip.bits
            invariant
                i <= self.available@.len(),
                self.available@ == s,
                *self == *old(self),
                increasing(s),
                forall|j: int| 0 <= j < i ==> s[j] < ip.bits,
            decreases self.available@.len() - i,
        {
            i = i + 1;
        }
        if i < self.available.len() && self.available[i] == ip.bits {
            assert(s.contains(ip.bits)) by {
                assert(s[i as int] == ip.bits);
            }
            assert(self@ =~= old(self)@.insert(ip.bits));
            return;
        }
        let mut more: Vec<u32> = Vec::new();
        std::mem::swap(&mut more, &mut self.available);
        more.insert(i, ip.bits);
        proof {
            let m = s.insert(i as int, ip.bits);
            assert forall|a: int, b: int| 0 <= a < b < m.len() implies #[trigger] m[a]
                < #[trigger] m[b] by {
                if i < s.len() {
                    assert(s[i as int] > ip.bits);
                }
                if a < i && b > i {
                    assert(s[a] < s[b - 1]);
                } else if a < i && b < i {
                    assert(s[a] < s[b]);
                } else if a == i {
                    if b - 1 > i {
                        assert(s[i as int] < s[b - 1]);
                    }
                } else if a > i {
                    assert(s[a - 1] < s[b - 1]);
                }
            }
            assert forall|x: u32| m.contains(x) <==> (s.contains(x) || x == ip.bits) by {
                if s.contains(x) {
                    let k = choose|k: int| 0 <= k < s.len() && s[k] == x;
                    if k < i {
                        assert(m[k] == x);
                    } else {
                        assert(m[k + 1] == x);
                    }
                }
                if x == ip.bits {
                    assert(m[i as int] == x);
                }
                if m.contains(x) {
                    let k = choose|k: int| 0 <= k < m.len() && m[k] == x;
                    if k < i {
                        assert(s[k] == x);
                    } else if k > i {
                        assert(s[k - 1] == x);
                    }
                }
            }
        }
        self.available = more;
        assert(self@ =~= old(self)@.insert(ip.bits));
    }

    /// True when the address lies in the subnet, free or not.
    pub fn is_in_range(&self, ip: Ipv4Addr) -> (r: bool)
        ensures
            r == (self.base() <= ip.bits < self.base() + self.size()),
    {
        ip.bits >= self.base_u32 && ((ip.bits - self.base_u32) as u64) < self.total
    }
}

/// Taking out one element keeps the order and loses that element alone.
proof fn lemma_remove_increasing(s: Seq<u32>, i: int)
    requires
        increasing(s),
        0 <= i < s.len(),
    ensures
        increasing(s.remove(i)),
        forall|x: u32| s.remove(i).contains(x) <==> s.contains(x) && x != s[i],
{
    let r = s.remove(i);
    assert forall|a: int, b: int| 0 <= a < b < r.len() implies #[trigger] r[a] < #[trigger] r[b] by {
        let a0 = if a < i {
            a
        } else {
            a + 1
        };
        let b0 = if b < i {
            b
        } else {
            b + 1
        };
        assert(s[a0] < s[b0]);
    }
    assert forall|x: u32| r.contains(x) <==> s.contains(x) && x != s[i] by {
        if r.contains(x) {
            let k = choose|k: int| 0 <= k < r.len() && r[k] == x;
            let k0 = if k < i {
                k
            } else {
                k + 1
            };
            assert(s[k0] == x);
            if k0 < i {
                assert(s[k0] < s[i]);
            } else {
                assert(s[i] < s[k0]);
            }
        }
        if s.contains(x) && x != s[i] {
            let k = choose|k: int| 0 <= k < s.len() && s[k] == x;
            if k < i {
                assert(r[k] == x);
            } else {
                assert(r[k - 1] == x);
            }
        }
    }
}

/// What the pool starts with: every address of the subnet but the first, the last, that of the
/// interface and those of the leases.
pub proof fn law_pool_starts_with(pd: CfgPacketData, a: u32)
    ensures
        ({
            let first = pd.ipv4_pool_base.bits as int;
            let last = first + pow2((32 - pd.ipv4_pool_prefix) as nat) - 1;
            pool_universe(pd).contains(a) <==> {
                &&& first <= a && a <= last
                &&& a != first && a != last && a != pd.tun_addr.bits
                &&& forall|i: int|
                    0 <= i < pd.static_lease@.len() ==> (#[trigger] pd.static_lease@[i]).ipv4.bits
                        != a
            }
        }),
{
}

/// An address that a context gives back is free again, unless it is a lease; no other address
/// changes hands.
pub proof fn law_given_back(pd: CfgPacketData, pool: Set<u32>, a: u32, b: u32)
    ensures
        ({
            let leased = exists|i: int|
                0 <= i < pd.static_lease@.len() && (#[trigger] pd.static_lease@[i]).ipv4.bits == a;
            given_back(pd, pool, a).contains(b) <==> pool.contains(b) || a == b && !leased
        }),
{
}

} // verus!
