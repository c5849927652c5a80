//! Partitioning a network into equally sized subnets.
use vstd::prelude::*;
use vstd::arithmetic::power2::*;
use vstd::arithmetic::div_mod::*;
use crate::net::{
    broadcast_of, lemma_width, mask_of, network_of, sn_from_cidr_gen, sn_from_cidr_u32, GenNet, IpAddress, IpInfo,
    NetError,
};
use crate::word::{
    ceil_log2, ceil_log2_of, lemma_ceil_log2_of, lemma_clear_low_bounds, lemma_pow2_128, lemma_set_low_below,
    block_address,
};

verus! {

/// A request to split `network` into at least `subnets` equally sized subnets.
#[derive(Debug, Copy)]
pub struct Task<Ip: IpInfo> {
    pub network: GenNet<Ip>,
    pub subnets: u32,
}

impl<Ip: IpInfo> Clone for Task<Ip> {
    fn clone(&self) -> (r: Self)
        ensures
            r == *self,
    {
        *self
    }
}

impl<Ip: IpInfo> Task<Ip> {
    /// How many bits the subnets add to the base prefix.
    pub open spec fn extra(self) -> nat {
        ceil_log2_of(self.subnets as nat)
    }

    /// The prefix length shared by all subnets.
    pub open spec fn target_prefix(self) -> nat {
        self.network.prefix() + self.extra()
    }

    /// How many subnets the partition has.
    pub open spec fn count(self) -> nat {
        pow2(self.extra())
    }

    /// The partition fits in the family's width.
    pub open spec fn fits(self) -> bool {
        self.target_prefix() <= Ip::spec_bits()
    }

    /// The network address of the subnet with index `i`.
    pub open spec fn subnet_address(self, i: nat) -> nat {
        self.network.network() + i * pow2((Ip::spec_bits() - self.target_prefix()) as nat)
    }

    /// Address `x` lies in the base network.
    pub open spec fn in_base(self, x: nat) -> bool {
        self.network.network() <= x <= self.network.broadcast()
    }

    /// Address `x` lies in the subnet with index `i`.
    pub open spec fn in_subnet(self, i: nat, x: nat) -> bool {
        let a = self.subnet_address(i);
        let w = Ip::spec_bits();
        let t = self.target_prefix();
        network_of(a, w, t) <= x <= broadcast_of(a, w, t)
    }

    /// The request of `subnets` subnets of `network`.
    pub fn new(network: GenNet<Ip>, subnets: u32) -> (r: Self)
        ensures
            r.network == network,
            r.subnets == subnets,
    {
        Task { network, subnets }
    }

    /// The prefix length of the subnets: the base prefix plus the least
    /// number of bits that gives at least `subnets` subnets.
    pub fn target_cidr(&self) -> (r: u8)
        ensures
            r == self.target_prefix(),
    {
        let k = ceil_log2(self.subnets);
        proof {
            lemma_width::<Ip>();
        }
        self.network.cidr() + k
    }

    /// The number of subnets the partition yields: the least power of two
    /// that is at least `subnets`.
    pub fn new_subnets(&self) -> (r: u32)
        requires
            self.subnets <= 0x8000_0000,
        ensures
            r == self.count(),
    {
        let k = ceil_log2(self.subnets);
        proof {
            lemma2_to64();
            lemma_ceil_log2_of(self.subnets as nat);
            if k > 31 {
                lemma_pow2_strictly_increases(31, (k - 1) as nat);
            }
        }
        let mut r: u32 = 1;
        let mut j: u8 = 0;
        while j < k
            invariant
                j <= k <= 31,
                r == pow2(j as nat),
            decreases k - j,
        {
            proof {
                lemma2_to64();
                lemma_pow2_adds(j as nat, 1);
                if j + 1 < 31 {
                    lemma_pow2_strictly_increases((j + 1) as nat, 31);
                }
            }
            r = r * 2;
            j = j + 1;
        }
        r
    }

    /// The 32-bit subnet mask of the target prefix; fails when that prefix is
    /// longer than 32 bits.
    pub fn target_subnetmask_u32(&self) -> (r: Result<u32, NetError>)
        ensures
            match r {
                Ok(m) => self.target_prefix() <= 32 && m == mask_of(32, self.target_prefix()),
                Err(e) => self.target_prefix() > 32 && e == NetError::InsufficientAddressSpace,
            },
    {
        let t = self.target_cidr();
        if t > 32 {
            Err(NetError::InsufficientAddressSpace)
        } else {
            Ok(sn_from_cidr_u32(t))
        }
    }

    /// The subnet mask of the target prefix; fails when that prefix is longer
    /// than the family's width.
    pub fn target_subnetmask(&self) -> (r: Result<IpAddress<Ip>, NetError>)
        ensures
            match r {
                Ok(m) => self.fits() && m@ == mask_of(Ip::spec_bits(), self.target_prefix()),
                Err(e) => !self.fits() && e == NetError::InsufficientAddressSpace,
            },
    {
        let t = self.target_cidr();
        if t > Ip::bits() {
            Err(NetError::InsufficientAddressSpace)
        } else {
            Ok(sn_from_cidr_gen(t))
        }
    }

    /// The subnet with index `i`: its address is the base network address
    /// plus `i` blocks of the subnet size, its prefix the target prefix.
    pub fn target_network(&self, i: u64) -> (r: Result<GenNet<Ip>, NetError>)
        requires
            i < self.count(),
        ensures
            match r {
                Ok(n) => self.fits() && n.address() == self.subnet_address(i as nat)
                    && n.prefix() == self.target_prefix(),
                Err(e) => !self.fits() && e == NetError::InsufficientAddressSpace,
            },
    {
        let t = self.target_cidr();
        let w = Ip::bits();
        if t > w {
            return Err(NetError::InsufficientAddressSpace);
        }
        proof {
            lemma_width::<Ip>();
        }
        let p = self.network.cidr();
        let base = self.network.network_address_bits();
        let s: u8 = w - t;
        let h: u8 = w - p;
        let ip = self.network.initial_ip();
        let a = ip.bits();
        proof {
            lemma_clear_low_bounds(a as nat, h as nat);
            lemma_set_low_below(a as nat, h as nat, w as nat);
            lemma_pow2_adds((h - s) as nat, s as nat);
            lemma_pow2_pos(s as nat);
            assert(i * pow2(s as nat) + pow2(s as nat) <= pow2(h as nat)) by (nonlinear_arith)
                requires
                    i < pow2((h - s) as nat),
                    pow2(h as nat) == pow2((h - s) as nat) * pow2(s as nat),
            ;
            lemma2_to64();
            lemma_pow2_128();
            if h < 128 {
                lemma_pow2_strictly_increases(h as nat, 128);
            }
        }
        let addr = block_address(base, w, p, t, i as u128);
        GenNet::new(IpAddress::from_proxy(addr), t)
    }

    /// Every subnet of the partition, in ascending order of address; fails
    /// when the target prefix is longer than the family's width.
    pub fn target_networks(&self) -> (r: Result<Vec<GenNet<Ip>>, NetError>)
        ensures
            match r {
                Ok(v) => self.fits() && v@.len() == self.count() && forall|i: int|
                    0 <= i < v@.len() ==> (#[trigger] v@[i]).address() == self.subnet_address(i as nat)
                        && v@[i].prefix() == self.target_prefix(),
                Err(e) => !self.fits() && e == NetError::InsufficientAddressSpace,
            },
    {
        let t = self.target_cidr();
        if t > Ip::bits() {
            return Err(NetError::InsufficientAddressSpace);
        }
        let k = ceil_log2(self.subnets);
        proof {
            lemma2_to64();
            if k < 32 {
                lemma_pow2_strictly_increases(k as nat, 32);
            }
        }
        let count: u64 = 1u64 << k;
        proof {
            lemma2_to64_rest();
            vstd::bits::lemma_u64_shl_is_mul(1, k as u64);
        }
        let mut nets: Vec<GenNet<Ip>> = Vec::new();
        let mut i: u64 = 0;
        while i < count
            invariant
                count == self.count(),
                self.fits(),
                i <= count,
                nets@.len() == i,
                forall|j: int|
                    0 <= j < i ==> (#[trigger] nets@[j]).address() == self.subnet_address(j as nat)
                        && nets@[j].prefix() == self.target_prefix(),
            decreases count - i,
        {
            match self.target_network(i) {
                Ok(n) => nets.push(n),
                Err(_) => {
                    return Err(NetError::InsufficientAddressSpace);
                },
            }
            i = i + 1;
        }
        Ok(nets)
    }
}

} // verus!

verus! {

/// The subnets of a partition tile the base network: each subnet is built on
/// its own network address, the subnets come in ascending order with disjoint
/// address ranges, and an address lies in the base network exactly when it
/// lies in one of the subnets.
pub proof fn lemma_tiling<Ip: IpInfo>(task: Task<Ip>)
    requires
        task.fits(),
    ensures
        forall|i: nat|
            i < task.count() ==> network_of(#[trigger] task.subnet_address(i), Ip::spec_bits(), task.target_prefix())
                == task.subnet_address(i),
        forall|i: nat, j: nat|
            i < j < task.count() ==> broadcast_of(#[trigger] task.subnet_address(i), Ip::spec_bits(), task.target_prefix())
                < network_of(#[trigger] task.subnet_address(j), Ip::spec_bits(), task.target_prefix()),
        forall|x: nat|
            #[trigger] task.in_base(x) <==> exists|i: nat| i < task.count() && #[trigger] task.in_subnet(i, x),
{
    let w = Ip::spec_bits();
    let t = task.target_prefix();
    let s = (w - t) as nat;
    let e = task.extra();
    let hp = (w - task.network.prefix()) as nat;
    let b = pow2(s);
    let c = task.count();
    let base = task.network.network();
    lemma_pow2_pos(s);
    lemma_pow2_pos(e);
    lemma_pow2_adds(e, s);
    assert(hp == e + s);
    lemma_clear_low_bounds(task.network.address(), hp);
    let q = base / pow2(hp);
    lemma_fundamental_div_mod(base as int, pow2(hp) as int);
    assert(base == q * c * b) by (nonlinear_arith)
        requires
            base == q * pow2(hp),
            pow2(hp) == c * b,
    ;
    assert forall|i: nat| #![auto] i < c implies network_of(task.subnet_address(i), w, t) == task.subnet_address(i)
        && broadcast_of(task.subnet_address(i), w, t) == task.subnet_address(i) + b - 1 by {
        assert(task.subnet_address(i) == (q * c + i) * b) by (nonlinear_arith)
            requires
                base == q * c * b,
                task.subnet_address(i) == base + i * b,
        ;
        lemma_div_multiples_vanish((q * c + i) as int, b as int);
    }
    assert forall|i: nat, j: nat| i < j < c implies broadcast_of(#[trigger] task.subnet_address(i), w, t)
        < network_of(#[trigger] task.subnet_address(j), w, t) by {
        assert(i * b + b <= j * b) by (nonlinear_arith)
            requires
                i < j,
                b > 0,
        ;
    }
    assert(task.network.broadcast() == base + c * b - 1);
    assert forall|x: nat| #[trigger] task.in_base(x) implies exists|i: nat|
        i < c && #[trigger] task.in_subnet(i, x) by {
        let d = (x - base) as nat;
        let i = d / b;
        lemma_fundamental_div_mod(d as int, b as int);
        lemma_mod_pos_bound(d as int, b as int);
        assert(i < c) by (nonlinear_arith)
            requires
                d == i * b + d % b,
                d % b >= 0,
                d < c * b,
                b > 0,
        ;
        assert(task.in_subnet(i, x));
    }
    assert forall|x: nat| (exists|i: nat| i < c && #[trigger] task.in_subnet(i, x)) implies #[trigger] task.in_base(x) by {
        let i = choose|i: nat| i < c && #[trigger] task.in_subnet(i, x);
        assert(i * b + b <= c * b) by (nonlinear_arith)
            requires
                i < c,
                b > 0,
        ;
    }
}

/// The partition has `2^ceil(log2(n))` subnets for `n` requested: at least
/// `n`, fewer than `2 * n`, and no smaller power of two reaches `n`.
pub proof fn lemma_count_law<Ip: IpInfo>(task: Task<Ip>)
    requires
        task.subnets >= 1,
    ensures
        task.count() == pow2(task.extra()),
        task.count() >= task.subnets,
        task.count() < 2 * task.subnets,
        forall|k: nat| pow2(k) >= task.subnets ==> task.extra() <= k,
{
    let n = task.subnets as nat;
    let k0 = task.extra();
    lemma_ceil_log2_of(n);
    lemma2_to64();
    if k0 > 0 {
        lemma_pow2_adds((k0 - 1) as nat, 1);
    }
    assert forall|k: nat| pow2(k) >= task.subnets implies k0 <= k by {
        if k < k0 {
            if k < k0 - 1 {
                lemma_pow2_strictly_increases(k, (k0 - 1) as nat);
            }
        }
    }
}

} // verus!

verus! {

/// The largest subnet count worth asking of a network with prefix `source`:
/// `2^(limit - source)`, capped at `max_subnets`.
pub fn max_subnets_for(limit: u8, source: u8, max_subnets: u32) -> (r: u32)
    requires
        source <= limit,
    ensures
        r == if pow2((limit - source) as nat) < max_subnets {
            pow2((limit - source) as nat)
        } else {
            max_subnets as nat
        },
{
    let e: u8 = limit - source;
    proof {
        lemma2_to64();
    }
    if e >= 32 {
        proof {
            if e > 32 {
                lemma_pow2_strictly_increases(32, e as nat);
            }
        }
        return max_subnets;
    }
    proof {
        lemma_pow2_strictly_increases(e as nat, 32);
    }
    let pow: u64 = 1u64 << e;
    proof {
        vstd::bits::lemma_u64_shl_is_mul(1, e as u64);
    }
    if pow < max_subnets as u64 {
        pow as u32
    } else {
        max_subnets
    }
}

} // verus!
