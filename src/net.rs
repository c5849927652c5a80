//! Address families, addresses and networks.
use vstd::prelude::*;
use vstd::arithmetic::power2::*;
use std::marker::PhantomData;
use vstd::arithmetic::div_mod::lemma_div_multiples_vanish;
use crate::word::{
    lemma_broadcast_word, lemma_low_bits_nested, lemma_low_bits_value, lemma_mask_bits_word,
    lemma_network_word, lemma_prefix_mask_word, low_bits, ones, bit_set,
    clear_host_bits, clear_low, fill_host_bits, lemma_clear_low_bounds, lemma_pow2_128, lemma_set_low_below,
    prefix_mask, prefix_mask_spec, set_low,
};

verus! {

/// An address family: fixes the width of its addresses.
pub trait IpInfo: Sized + Copy {
    /// Number of bits in an address of this family.
    spec fn spec_bits() -> nat;

    /// A family is 32 or 128 bits wide.
    proof fn lemma_bits()
        ensures
            Self::spec_bits() == 32 || Self::spec_bits() == 128,
    ;

    /// Number of bits in an address of this family.
    fn bits() -> (r: u8)
        ensures
            r as nat == Self::spec_bits(),
    ;
}

/// The 32-bit family.
#[derive(Debug, Clone, Copy, PartialEq, Eq)]
pub struct V4 {}

impl IpInfo for V4 {
    open spec fn spec_bits() -> nat {
        32
    }

    proof fn lemma_bits() {
    }

    fn bits() -> (r: u8) {
        32
    }
}

/// The 128-bit family.
#[derive(Debug, Clone, Copy, PartialEq, Eq)]
pub struct V6 {}

impl IpInfo for V6 {
    open spec fn spec_bits() -> nat {
        128
    }

    proof fn lemma_bits() {
    }

    fn bits() -> (r: u8) {
        128
    }
}

/// Names the two families at run time.
#[derive(Debug, Clone, Copy, PartialEq, Eq, Structural)]
pub enum IpType {
    V4,
    V6,
}

/// What can go wrong when a network or a partition is built.
#[derive(Debug, Clone, Copy, PartialEq, Eq, Structural)]
pub enum NetError {
    /// The prefix length is larger than the family's width.
    InvalidPrefix,
    /// The requested number of subnets does not fit below the base prefix.
    InsufficientAddressSpace,
}

/// The subnet mask of prefix `p` in a `w`-bit word, as a number.
pub open spec fn mask_of(w: nat, p: nat) -> nat {
    (pow2(w) - pow2((w - p) as nat)) as nat
}

/// The network address of `a` under prefix `p` in a `w`-bit word.
pub open spec fn network_of(a: nat, w: nat, p: nat) -> nat {
    clear_low(a, (w - p) as nat)
}

/// The broadcast address of `a` under prefix `p` in a `w`-bit word.
pub open spec fn broadcast_of(a: nat, w: nat, p: nat) -> nat {
    set_low(a, (w - p) as nat)
}

/// The first and last usable host, when the network has any.
pub open spec fn hosts_of(a: nat, w: nat, p: nat) -> Option<(nat, nat)> {
    if p + 2 <= w {
        Some((network_of(a, w, p) + 1, (broadcast_of(a, w, p) - 1) as nat))
    } else {
        None
    }
}

/// An address of family `Ip`.
#[derive(Debug, Copy, PartialEq, Eq)]
pub struct IpAddress<Ip: IpInfo> {
    value: u128,
    family: PhantomData<Ip>,
}

impl<Ip: IpInfo> Clone for IpAddress<Ip> {
    fn clone(&self) -> (r: Self)
        ensures
            r == *self,
    {
        *self
    }
}

impl<Ip: IpInfo> View for IpAddress<Ip> {
    type V = nat;

    closed spec fn view(&self) -> nat {
        self.value as nat
    }
}

impl<Ip: IpInfo> IpAddress<Ip> {
    #[verifier::type_invariant]
    spec fn fits(self) -> bool {
        self.value < pow2(Ip::spec_bits())
    }

    /// The address whose bits are `bits`.
    pub fn from_proxy(bits: u128) -> (r: Self)
        requires
            bits < pow2(Ip::spec_bits()),
        ensures
            r@ == bits,
    {
        IpAddress { value: bits, family: PhantomData }
    }

    /// The bits of this address.
    pub fn bits(&self) -> (r: u128)
        ensures
            r == self@,
            r < pow2(Ip::spec_bits()),
    {
        proof {
            use_type_invariant(self);
        }
        self.value
    }
}

/// Width facts every family gives.
pub proof fn lemma_width<Ip: IpInfo>()
    ensures
        Ip::spec_bits() == 32 || Ip::spec_bits() == 128,
        Ip::spec_bits() <= 128,
        pow2(Ip::spec_bits()) <= u128::MAX + 1,
{
    Ip::lemma_bits();
    lemma_pow2_128();
    if Ip::spec_bits() < 128 {
        lemma_pow2_strictly_increases(Ip::spec_bits(), 128);
    }
}

/// The subnet mask of prefix `cidr`, as bits.
pub fn sn_from_cidr_gen_bits<Ip: IpInfo>(cidr: u8) -> (r: u128)
    requires
        cidr <= Ip::spec_bits(),
    ensures
        r as nat == mask_of(Ip::spec_bits(), cidr as nat),
        r == prefix_mask_spec(Ip::spec_bits() as u8, cidr),
{
    proof {
        lemma_width::<Ip>();
    }
    prefix_mask(Ip::bits(), cidr)
}

/// The subnet mask of prefix `cidr`, as an address.
pub fn sn_from_cidr_gen<Ip: IpInfo>(cidr: u8) -> (r: IpAddress<Ip>)
    requires
        cidr <= Ip::spec_bits(),
    ensures
        r@ == mask_of(Ip::spec_bits(), cidr as nat),
{
    proof {
        lemma_width::<Ip>();
        lemma_pow2_pos((Ip::spec_bits() - cidr) as nat);
        if cidr > 0 {
            lemma_pow2_strictly_increases((Ip::spec_bits() - cidr) as nat, Ip::spec_bits());
        }
    }
    IpAddress::from_proxy(sn_from_cidr_gen_bits::<Ip>(cidr))
}

/// The network address of `ip` under prefix `cidr`.
pub fn na_from_ip_and_cidr_gen<Ip: IpInfo>(ip: &IpAddress<Ip>, cidr: u8) -> (r: IpAddress<Ip>)
    requires
        cidr <= Ip::spec_bits(),
    ensures
        r@ == network_of(ip@, Ip::spec_bits(), cidr as nat),
{
    proof {
        lemma_width::<Ip>();
    }
    let a = ip.bits();
    let na = clear_host_bits(a, Ip::bits(), cidr);
    proof {
        lemma_clear_low_bounds(a as nat, (Ip::spec_bits() - cidr) as nat);
    }
    IpAddress::from_proxy(na)
}

/// The broadcast address of `ip` under prefix `cidr`.
pub fn bc_from_ip_and_cidr_gen<Ip: IpInfo>(ip: &IpAddress<Ip>, cidr: u8) -> (r: IpAddress<Ip>)
    requires
        cidr <= Ip::spec_bits(),
    ensures
        r@ == broadcast_of(ip@, Ip::spec_bits(), cidr as nat),
{
    proof {
        lemma_width::<Ip>();
    }
    let a = ip.bits();
    let bc = fill_host_bits(a, Ip::bits(), cidr);
    proof {
        lemma_set_low_below(a as nat, (Ip::spec_bits() - cidr) as nat, Ip::spec_bits());
    }
    IpAddress::from_proxy(bc)
}

/// The 32-bit subnet mask of prefix `cidr`.
pub fn sn_from_cidr_u32(cidr: u8) -> (r: u32)
    requires
        cidr <= 32,
    ensures
        r as nat == mask_of(32, cidr as nat),
{
    let m = sn_from_cidr_gen_bits::<V4>(cidr);
    proof {
        lemma2_to64();
        lemma_pow2_pos((32 - cidr) as nat);
    }
    m as u32
}

} // verus!

verus! {

/// A network of family `Ip`: an address together with a prefix length.
/// Network address, broadcast address, mask and host range are derived from
/// these two fields whenever they are asked for. Two networks are equal when
/// their network addresses and prefix lengths are.
#[derive(Debug, Copy)]
pub struct GenNet<Ip: IpInfo> {
    initial_ip: IpAddress<Ip>,
    cidr: u8,
}

impl<Ip: IpInfo> Clone for GenNet<Ip> {
    fn clone(&self) -> (r: Self)
        ensures
            r == *self,
    {
        *self
    }
}

impl<Ip: IpInfo> PartialEq for GenNet<Ip> {
    fn eq(&self, o: &Self) -> (r: bool)
        ensures
            r == (self.network() == o.network() && self.prefix() == o.prefix()),
    {
        self.network_address_bits() == o.network_address_bits() && self.cidr() == o.cidr()
    }
}

impl<Ip: IpInfo> vstd::std_specs::cmp::PartialEqSpecImpl for GenNet<Ip> {
    open spec fn obeys_eq_spec() -> bool {
        true
    }

    open spec fn eq_spec(&self, o: &Self) -> bool {
        self.network() == o.network() && self.prefix() == o.prefix()
    }
}

impl<Ip: IpInfo> Eq for GenNet<Ip> {
}

impl<Ip: IpInfo> GenNet<Ip> {
    #[verifier::type_invariant]
    spec fn prefix_fits(self) -> bool {
        self.cidr <= Ip::spec_bits()
    }

    /// The address the network was built from.
    pub closed spec fn address(self) -> nat {
        self.initial_ip@
    }

    /// The prefix length.
    pub closed spec fn prefix(self) -> nat {
        self.cidr as nat
    }

    /// The network address, as a number.
    pub open spec fn network(self) -> nat {
        network_of(self.address(), Ip::spec_bits(), self.prefix())
    }

    /// The broadcast address, as a number.
    pub open spec fn broadcast(self) -> nat {
        broadcast_of(self.address(), Ip::spec_bits(), self.prefix())
    }

    /// The subnet mask, as a number.
    pub open spec fn mask(self) -> nat {
        mask_of(Ip::spec_bits(), self.prefix())
    }

    /// The first and last usable host, if any.
    pub open spec fn hosts(self) -> Option<(nat, nat)> {
        hosts_of(self.address(), Ip::spec_bits(), self.prefix())
    }

    /// Builds the network of `ip` with prefix length `cidr`; fails when the
    /// prefix is longer than the family's width.
    pub fn new(ip: IpAddress<Ip>, cidr: u8) -> (r: Result<Self, NetError>)
        ensures
            match r {
                Ok(n) => cidr <= Ip::spec_bits() && n.address() == ip@ && n.prefix() == cidr,
                Err(e) => cidr > Ip::spec_bits() && e == NetError::InvalidPrefix,
            },
    {
        if cidr > Ip::bits() {
            Err(NetError::InvalidPrefix)
        } else {
            Ok(GenNet { initial_ip: ip, cidr })
        }
    }

    /// The network address.
    pub fn network_address(&self) -> (r: IpAddress<Ip>)
        ensures
            r@ == self.network(),
    {
        proof {
            use_type_invariant(self);
        }
        na_from_ip_and_cidr_gen(&self.initial_ip, self.cidr)
    }

    /// The bits of the network address.
    pub fn network_address_bits(&self) -> (r: u128)
        ensures
            r == self.network(),
            r < pow2(Ip::spec_bits()),
    {
        self.network_address().bits()
    }

    /// The broadcast address.
    pub fn broadcast_address(&self) -> (r: IpAddress<Ip>)
        ensures
            r@ == self.broadcast(),
    {
        proof {
            use_type_invariant(self);
        }
        bc_from_ip_and_cidr_gen(&self.initial_ip, self.cidr)
    }

    /// The bits of the broadcast address.
    pub fn broadcast_address_bits(&self) -> (r: u128)
        ensures
            r == self.broadcast(),
            r < pow2(Ip::spec_bits()),
    {
        self.broadcast_address().bits()
    }

    /// The subnet mask.
    pub fn subnetmask(&self) -> (r: IpAddress<Ip>)
        ensures
            r@ == self.mask(),
    {
        proof {
            use_type_invariant(self);
        }
        sn_from_cidr_gen(self.cidr)
    }

    /// The bits of the subnet mask.
    pub fn subnetmask_bits(&self) -> (r: u128)
        ensures
            r == self.mask(),
    {
        proof {
            use_type_invariant(self);
        }
        sn_from_cidr_gen_bits::<Ip>(self.cidr)
    }

    /// The first and last usable host; `None` when the prefix leaves fewer
    /// than two host bits.
    pub fn host(&self) -> (r: Option<(IpAddress<Ip>, IpAddress<Ip>)>)
        ensures
            match r {
                Some((from, until)) => self.hosts() == Some((from@, until@)),
                None => self.hosts() is None,
            },
    {
        match self.host_bits() {
            Some((from, until)) => Some((IpAddress::from_proxy(from), IpAddress::from_proxy(until))),
            None => None,
        }
    }

    /// The bits of the first and last usable host, as in `host`.
    pub fn host_bits(&self) -> (r: Option<(u128, u128)>)
        ensures
            match r {
                Some((from, until)) => self.hosts() == Some((from as nat, until as nat))
                    && from <= until < pow2(Ip::spec_bits()),
                None => self.hosts() is None,
            },
    {
        proof {
            use_type_invariant(self);
            lemma_width::<Ip>();
        }
        let w = Ip::bits();
        if self.cidr <= w - 2 {
            let na = self.network_address_bits();
            let bc = self.broadcast_address_bits();
            proof {
                lemma2_to64();
                lemma_pow2_strictly_increases(1, (w - self.cidr) as nat);
            }
            Some((na + 1, bc - 1))
        } else {
            None
        }
    }

    /// The address the network was built from.
    pub fn initial_ip(&self) -> (r: IpAddress<Ip>)
        ensures
            r@ == self.address(),
    {
        self.initial_ip
    }

    /// The prefix length.
    pub fn cidr(&self) -> (r: u8)
        ensures
            r == self.prefix(),
            r <= Ip::spec_bits(),
    {
        proof {
            use_type_invariant(self);
        }
        self.cidr
    }
}

} // verus!

verus! {

/// Masking the network address with the complement of the subnet mask gives
/// zero; the broadcast address keeps every network bit of the network address
/// and has every host bit set. The broadcast address also absorbs the subnet
/// mask under `|` exactly when the network address has every network bit set.
pub proof fn lemma_address_bits(a: nat, w: nat, p: nat)
    requires
        w == 32 || w == 128,
        p <= w,
        a < pow2(w),
    ensures
        (network_of(a, w, p) as u128) & !(mask_of(w, p) as u128) == 0,
        (broadcast_of(a, w, p) as u128) & (mask_of(w, p) as u128) == network_of(a, w, p),
        (broadcast_of(a, w, p) as u128) | (ones((w - p) as nat) as u128) == broadcast_of(a, w, p),
        (network_of(a, w, p) == mask_of(w, p)) <==> ((broadcast_of(a, w, p) as u128) | (mask_of(w, p) as u128)
            == broadcast_of(a, w, p)),
{
    lemma_pow2_128();
    if w < 128 {
        lemma_pow2_strictly_increases(w, 128);
    }
    let x = a as u128;
    let wu = w as u8;
    let pu = p as u8;
    lemma_network_word(x, wu, pu);
    lemma_broadcast_word(x, wu, pu);
    lemma_prefix_mask_word(wu, pu);
    lemma_low_bits_value((w - p) as u128);
    let m = prefix_mask_spec(wu, pu);
    let lh = low_bits((w - p) as u128);
    let lw = low_bits(w as u128);
    lemma_low_bits_nested((w - p) as u128, w as u128);
    assert(m == lw & !lh);
    assert((x & m) & !m == 0) by (bit_vector);
    assert(((x & m) | lh) & m == x & m) by (bit_vector)
        requires
            m == lw & !lh,
    ;
    assert(((x & m) | lh) | lh == (x & m) | lh) by (bit_vector);
    assert((x & m) == m <==> ((x & m) | lh) | m == (x & m) | lh) by (bit_vector)
        requires
            m == lw & !lh,
    ;
}

/// The subnet mask of prefix `p` in a `w`-bit word has exactly `p` leading
/// one-bits followed by zero-bits: bit `i` (counted from the least
/// significant) is set exactly when `w - p <= i < w`.
pub proof fn lemma_mask_bits(w: nat, p: nat)
    requires
        w == 32 || w == 128,
        p <= w,
    ensures
        forall|i: u128| i < 128 ==> (#[trigger] bit_set(mask_of(w, p) as u128, i) <==> (w - p <= i < w)),
{
    let wu = w as u8;
    let pu = p as u8;
    lemma_prefix_mask_word(wu, pu);
    lemma_mask_bits_word(w as u128, (w - p) as u128);
}

/// Building a network from another network's address and prefix gives the
/// same network: equal network address, broadcast address, mask and hosts.
pub proof fn lemma_construct_idempotent<Ip: IpInfo>(n: GenNet<Ip>, m: GenNet<Ip>)
    requires
        m.address() == n.network(),
        m.prefix() == n.prefix(),
    ensures
        m.network() == n.network(),
        m.broadcast() == n.broadcast(),
        m.mask() == n.mask(),
        m.hosts() == n.hosts(),
{
    let h = (Ip::spec_bits() - n.prefix()) as nat;
    lemma_pow2_pos(h);
    let q = n.address() / pow2(h);
    lemma_div_multiples_vanish(q as int, pow2(h) as int);
}

} // verus!

verus! {

/// The 32-bit subnet mask of prefix `cidr`, as an address.
pub fn sn_from_cidr(cidr: u8) -> (r: IpAddress<V4>)
    requires
        cidr <= 32,
    ensures
        r@ == mask_of(32, cidr as nat),
{
    sn_from_cidr_gen::<V4>(cidr)
}

/// The network address of a 32-bit address under prefix `cidr`.
pub fn na_from_ip_and_cidr(ip: IpAddress<V4>, cidr: u8) -> (r: IpAddress<V4>)
    requires
        cidr <= 32,
    ensures
        r@ == network_of(ip@, 32, cidr as nat),
{
    na_from_ip_and_cidr_gen(&ip, cidr)
}

/// The broadcast address of a 32-bit address under prefix `cidr`.
pub fn bc_from_ip_and_cidr(ip: IpAddress<V4>, cidr: u8) -> (r: IpAddress<V4>)
    requires
        cidr <= 32,
    ensures
        r@ == broadcast_of(ip@, 32, cidr as nat),
{
    bc_from_ip_and_cidr_gen(&ip, cidr)
}

} // verus!
