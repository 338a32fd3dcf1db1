//! The block of private IPv4 addresses from which synthetic addresses are drawn.

use crate::addr::Ipv4Address;
use vstd::arithmetic::power2::{lemma2_to64, lemma_pow2_pos, lemma_pow2_unfold, pow2};
use vstd::prelude::*;

verus! {

/// A block of IPv4 addresses given as a network address and a prefix length.
/// Its addresses are drawn in ascending order, the network address first.
#[derive(Clone, Copy, Debug, PartialEq, Eq, Structural)]
pub struct Pool {
    network: u32,
    size: u64,
}

/// The number of addresses in a block with a prefix of `prefix_len` bits.
pub open spec fn block_size(prefix_len: u8) -> nat
    recommends
        prefix_len <= 32,
{
    pow2((32 - prefix_len) as nat)
}

impl Pool {
    /// The first address of the block, as a number.
    pub closed spec fn first(self) -> int {
        self.network as int
    }

    /// The number of addresses in the block.
    pub closed spec fn count(self) -> int {
        self.size as int
    }

    /// The block is not empty and ends within the address space.
    #[verifier::type_invariant]
    pub open spec fn wf(self) -> bool {
        0 <= self.first() && 1 <= self.count() && self.first() + self.count() <= 0x1_0000_0000
    }

    /// `ip` is the `k`-th address of the block, counting from 0.
    pub open spec fn is_nth(self, ip: Ipv4Address, k: int) -> bool {
        0 <= k < self.count() && ip.bits == self.first() + k
    }

    /// `ip` lies in the block.
    pub open spec fn holds(self, ip: Ipv4Address) -> bool {
        self.first() <= ip.bits < self.first() + self.count()
    }

    /// The block `network/prefix_len`: none where the prefix is longer than
    /// 32 bits or `network` is not the first address of such a block.
    pub fn new(network: Ipv4Address, prefix_len: u8) -> (r: Option<Pool>)
        ensures
            r is Some <==> prefix_len <= 32 && network.bits as int % block_size(prefix_len) as int
                == 0,
            r is Some ==> r->0.wf() && r->0.first() == network.bits && r->0.count() == block_size(
                prefix_len,
            ),
    {
        if prefix_len > 32 {
            return None;
        }
        let bits: u8 = 32 - prefix_len;
        let mut size: u64 = 1;
        let mut i: u8 = 0;
        proof {
            lemma2_to64();
        }
        while i < bits
            invariant
                i <= bits <= 32,
                size == pow2(i as nat),
                size * pow2((32 - i) as nat) == 0x1_0000_0000,
            decreases bits - i,
        {
            proof {
                let rest = pow2((32 - i) as nat) as int;
                let less = pow2((32 - i - 1) as nat) as int;
                lemma_pow2_unfold((i + 1) as nat);
                lemma_pow2_unfold((32 - i) as nat);
                lemma_pow2_pos((32 - i - 1) as nat);
                assert(rest == 2 * less);
                assert((size * 2) * less == 0x1_0000_0000) by (nonlinear_arith)
                    requires
                        size * rest == 0x1_0000_0000,
                        rest == 2 * less,
                ;
                assert(size * 2 <= 0x1_0000_0000) by (nonlinear_arith)
                    requires
                        (size * 2) * less == 0x1_0000_0000,
                        less >= 1,
                        size >= 0,
                ;
            }
            size = size * 2;
            i = i + 1;
        }
        if (network.bits as u64) % size != 0 {
            return None;
        }
        proof {
            let q = pow2((32 - bits) as nat) as int;
            let a = network.bits as int / size as int;
            lemma_pow2_pos(bits as nat);
            assert(network.bits == a * size) by (nonlinear_arith)
                requires
                    network.bits as int % size as int == 0,
                    size > 0,
                    a == network.bits as int / size as int,
            ;
            assert(q * size == 0x1_0000_0000) by (nonlinear_arith)
                requires
                    size * q == 0x1_0000_0000,
            ;
            assert(a < q) by (nonlinear_arith)
                requires
                    a * size < q * size,
                    size > 0,
            ;
            assert((a + 1) * size <= q * size) by (nonlinear_arith)
                requires
                    a + 1 <= q,
                    size > 0,
            ;
            assert((a + 1) * size == a * size + size) by (nonlinear_arith);
        }
        Some(Pool { network: network.bits, size })
    }

    /// Whether `ip` lies in the block.
    pub fn contains(&self, ip: Ipv4Address) -> (r: bool)
        ensures
            r == self.holds(ip),
    {
        proof {
            use_type_invariant(self);
        }
        self.network <= ip.bits && ((ip.bits - self.network) as u64) < self.size
    }

    /// The number of addresses in the block.
    pub fn size(&self) -> (n: u64)
        ensures
            n == self.count(),
    {
        self.size
    }

    /// The `k`-th address of the block, counting from 0.
    pub fn nth(&self, k: u64) -> (ip: Ipv4Address)
        requires
            k < self.count(),
        ensures
            self.is_nth(ip, k as int),
    {
        proof {
            use_type_invariant(self);
        }
        Ipv4Address { bits: (self.network as u64 + k) as u32 }
    }

    /// The position of `ip` in the block, if it lies in it.
    pub fn position(&self, ip: Ipv4Address) -> (r: Option<u64>)
        ensures
            match r {
                Some(k) => self.is_nth(ip, k as int),
                None => !self.holds(ip),
            },
    {
        proof {
            use_type_invariant(self);
        }
        if self.contains(ip) {
            Some((ip.bits - self.network) as u64)
        } else {
            None
        }
    }
}

} // verus!
