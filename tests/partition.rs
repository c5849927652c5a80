use subnetting::net::{
    bc_from_ip_and_cidr, na_from_ip_and_cidr, sn_from_cidr, sn_from_cidr_gen_bits, sn_from_cidr_u32, GenNet,
    IpAddress, NetError, V4, V6,
};
use subnetting::task::{max_subnets_for, Task};

fn v4(a: u8, b: u8, c: u8, d: u8) -> IpAddress<V4> {
    IpAddress::from_proxy(u128::from(u32::from_be_bytes([a, b, c, d])))
}

fn net4(a: u8, b: u8, c: u8, d: u8, cidr: u8) -> GenNet<V4> {
    GenNet::new(v4(a, b, c, d), cidr).unwrap()
}

fn bits4(a: u8, b: u8, c: u8, d: u8) -> u128 {
    u128::from(u32::from_be_bytes([a, b, c, d]))
}

const DOC_PREFIX: u128 = 0x2001_0db8_0000_0000_0000_0000_0000_0000;

#[test]
fn ipv4_slash24_into_four() {
    let task = Task::new(net4(192, 168, 0, 0, 24), 4);
    assert_eq!(task.target_cidr(), 26);
    assert_eq!(task.new_subnets(), 4);
    let nets = task.target_networks().unwrap();
    assert_eq!(nets.len(), 4);
    let expected = [bits4(192, 168, 0, 0), bits4(192, 168, 0, 64), bits4(192, 168, 0, 128), bits4(192, 168, 0, 192)];
    for (n, e) in nets.iter().zip(expected.iter()) {
        assert_eq!(n.network_address_bits(), *e);
        assert_eq!(n.cidr(), 26);
    }
    assert_eq!(nets[1].broadcast_address_bits(), bits4(192, 168, 0, 127));
    assert_eq!(nets[1].host_bits(), Some((bits4(192, 168, 0, 65), bits4(192, 168, 0, 126))));
    assert_eq!(task.target_subnetmask_u32(), Ok(0xFFFF_FFC0));
    assert_eq!(task.target_subnetmask().unwrap().bits(), 0xFFFF_FFC0);
}

#[test]
fn ipv6_three_subnets_round_to_four() {
    let base = GenNet::<V6>::new(IpAddress::from_proxy(DOC_PREFIX), 32).unwrap();
    let task = Task::new(base, 3);
    assert_eq!(task.target_cidr(), 34);
    assert_eq!(task.new_subnets(), 4);
    let nets = task.target_networks().unwrap();
    assert_eq!(nets.len(), 4);
    for (i, n) in nets.iter().enumerate() {
        assert_eq!(n.network_address_bits(), DOC_PREFIX + ((i as u128) << 94));
        assert_eq!(n.cidr(), 34);
    }
    assert_eq!(nets[3].broadcast_address_bits(), 0x2001_0db8_ffff_ffff_ffff_ffff_ffff_ffff);
}

#[test]
fn too_many_subnets_for_the_width() {
    let task = Task::new(net4(10, 0, 0, 0, 30), 16);
    assert_eq!(task.target_cidr(), 34);
    assert_eq!(task.target_networks().unwrap_err(), NetError::InsufficientAddressSpace);
    assert_eq!(task.target_network(0).unwrap_err(), NetError::InsufficientAddressSpace);
    assert_eq!(task.target_subnetmask().unwrap_err(), NetError::InsufficientAddressSpace);
    assert_eq!(task.target_subnetmask_u32(), Err(NetError::InsufficientAddressSpace));
}

#[test]
fn no_hosts_at_the_two_longest_prefixes() {
    let n31 = net4(192, 168, 1, 7, 31);
    assert_eq!(n31.host_bits(), None);
    assert!(n31.host().is_none());
    assert_eq!(n31.network_address_bits(), bits4(192, 168, 1, 6));
    assert_eq!(n31.broadcast_address_bits(), bits4(192, 168, 1, 7));
    let n32 = net4(192, 168, 1, 7, 32);
    assert_eq!(n32.host_bits(), None);
    assert_eq!(n32.network_address_bits(), bits4(192, 168, 1, 7));
    assert_eq!(n32.broadcast_address_bits(), bits4(192, 168, 1, 7));
    let n30 = net4(192, 168, 1, 7, 30);
    assert_eq!(n30.host_bits(), Some((bits4(192, 168, 1, 5), bits4(192, 168, 1, 6))));
    let (from, until) = n30.host().unwrap();
    assert_eq!((from.bits(), until.bits()), (bits4(192, 168, 1, 5), bits4(192, 168, 1, 6)));
    let v6 = GenNet::<V6>::new(IpAddress::from_proxy(u128::MAX), 127).unwrap();
    assert_eq!(v6.host_bits(), None);
    let v6 = GenNet::<V6>::new(IpAddress::from_proxy(u128::MAX), 128).unwrap();
    assert_eq!(v6.host_bits(), None);
}

#[test]
fn prefix_longer_than_width_is_refused() {
    assert_eq!(GenNet::new(v4(1, 2, 3, 4), 33).unwrap_err(), NetError::InvalidPrefix);
    assert_eq!(GenNet::<V6>::new(IpAddress::from_proxy(1), 129).unwrap_err(), NetError::InvalidPrefix);
    assert!(GenNet::new(v4(1, 2, 3, 4), 32).is_ok());
    assert!(GenNet::<V6>::new(IpAddress::from_proxy(1), 128).is_ok());
}

#[test]
fn prefix_zero_covers_everything() {
    let n = net4(172, 16, 5, 4, 0);
    assert_eq!(n.subnetmask_bits(), 0);
    assert_eq!(n.network_address_bits(), 0);
    assert_eq!(n.broadcast_address_bits(), 0xFFFF_FFFF);
    assert_eq!(n.host_bits(), Some((1, 0xFFFF_FFFE)));
    let m = GenNet::<V6>::new(IpAddress::from_proxy(DOC_PREFIX + 5), 0).unwrap();
    assert_eq!(m.subnetmask_bits(), 0);
    assert_eq!(m.network_address_bits(), 0);
    assert_eq!(m.broadcast_address_bits(), u128::MAX);
    let full = GenNet::<V6>::new(IpAddress::from_proxy(DOC_PREFIX + 5), 128).unwrap();
    assert_eq!(full.subnetmask_bits(), u128::MAX);
    assert_eq!(full.network_address_bits(), DOC_PREFIX + 5);
}

#[test]
fn accessors_of_a_network() {
    let n = net4(192, 168, 10, 77, 20);
    assert_eq!(n.initial_ip().bits(), bits4(192, 168, 10, 77));
    assert_eq!(n.cidr(), 20);
    assert_eq!(n.network_address().bits(), bits4(192, 168, 0, 0));
    assert_eq!(n.broadcast_address().bits(), bits4(192, 168, 15, 255));
    assert_eq!(n.subnetmask().bits(), bits4(255, 255, 240, 0));
    assert_eq!(n.subnetmask_bits(), bits4(255, 255, 240, 0));
}

#[test]
fn free_mask_functions() {
    assert_eq!(sn_from_cidr_u32(24), 0xFFFF_FF00);
    assert_eq!(sn_from_cidr_u32(0), 0);
    assert_eq!(sn_from_cidr_u32(32), 0xFFFF_FFFF);
    assert_eq!(sn_from_cidr_u32(1), 0x8000_0000);
    assert_eq!(sn_from_cidr(27).bits(), 0xFFFF_FFE0);
    assert_eq!(sn_from_cidr_gen_bits::<V6>(64), 0xFFFF_FFFF_FFFF_FFFF_0000_0000_0000_0000);
    assert_eq!(sn_from_cidr_gen_bits::<V6>(1), 1u128 << 127);
    assert_eq!(na_from_ip_and_cidr(v4(10, 1, 2, 3), 8).bits(), bits4(10, 0, 0, 0));
    assert_eq!(bc_from_ip_and_cidr(v4(10, 1, 2, 3), 8).bits(), bits4(10, 255, 255, 255));
    assert_eq!(bc_from_ip_and_cidr(v4(10, 1, 2, 3), 32).bits(), bits4(10, 1, 2, 3));
}

#[test]
fn network_and_broadcast_bit_laws() {
    let addrs = [bits4(192, 168, 13, 77), bits4(0, 0, 0, 0), bits4(255, 255, 255, 255), bits4(10, 200, 3, 1)];
    for a in addrs {
        for p in 0..=32u8 {
            let n = GenNet::<V4>::new(IpAddress::from_proxy(a), p).unwrap();
            let na = n.network_address_bits();
            let bc = n.broadcast_address_bits();
            let m = n.subnetmask_bits();
            let host = m ^ 0xFFFF_FFFF;
            assert_eq!(na & !m, 0);
            assert_eq!(bc & m, na);
            assert_eq!(bc | host, bc);
            assert_eq!(bc & host, host);
        }
    }
}

#[test]
fn broadcast_absorbs_mask_only_with_all_network_bits_set() {
    let n = net4(192, 168, 0, 0, 24);
    assert_ne!(n.broadcast_address_bits() | n.subnetmask_bits(), n.broadcast_address_bits());
    let m = net4(255, 255, 255, 9, 24);
    assert_eq!(m.network_address_bits(), m.subnetmask_bits());
    assert_eq!(m.broadcast_address_bits() | m.subnetmask_bits(), m.broadcast_address_bits());
}

#[test]
fn mask_has_leading_ones_then_zeros() {
    for p in 0..=32u8 {
        let m = sn_from_cidr_u32(p);
        assert_eq!(m.leading_ones(), u32::from(p));
        assert_eq!(m.count_ones(), u32::from(p));
    }
    for p in 0..=128u8 {
        let m = sn_from_cidr_gen_bits::<V6>(p);
        assert_eq!(m.leading_ones(), u32::from(p));
        assert_eq!(m.count_ones(), u32::from(p));
    }
}

#[test]
fn rebuilding_from_network_address_is_idempotent() {
    for p in [0u8, 7, 16, 24, 30, 31, 32] {
        let n = net4(203, 0, 113, 99, p);
        let again = GenNet::new(n.network_address(), n.cidr()).unwrap();
        assert_eq!(again.network_address_bits(), n.network_address_bits());
        assert_eq!(again.broadcast_address_bits(), n.broadcast_address_bits());
        assert_eq!(again.subnetmask_bits(), n.subnetmask_bits());
        assert_eq!(again.host_bits(), n.host_bits());
        assert_eq!(again.cidr(), n.cidr());
        assert_eq!(again, n);
    }
}

#[test]
fn networks_compare_by_network_address_and_prefix() {
    assert_eq!(net4(10, 0, 0, 1, 24), net4(10, 0, 0, 200, 24));
    assert_ne!(net4(10, 0, 0, 1, 24), net4(10, 0, 0, 1, 25));
    assert_ne!(net4(10, 0, 0, 1, 24), net4(10, 0, 1, 1, 24));
}

#[test]
fn subnets_tile_the_base_network() {
    let base = net4(172, 20, 77, 1, 21);
    for count in 1..=40u32 {
        let task = Task::new(base, count);
        let nets = task.target_networks().unwrap();
        assert_eq!(nets[0].network_address_bits(), base.network_address_bits());
        for pair in nets.windows(2) {
            assert_eq!(pair[0].broadcast_address_bits() + 1, pair[1].network_address_bits());
        }
        assert_eq!(nets[nets.len() - 1].broadcast_address_bits(), base.broadcast_address_bits());
        for (i, n) in nets.iter().enumerate() {
            assert_eq!(task.target_network(i as u64).unwrap().network_address_bits(), n.network_address_bits());
        }
    }
}

#[test]
fn count_is_least_power_of_two_not_below_request() {
    let base = GenNet::<V6>::new(IpAddress::from_proxy(DOC_PREFIX), 32).unwrap();
    for n in 1..=1000u32 {
        let task = Task::new(base, n);
        let count = task.new_subnets();
        assert!(count.is_power_of_two());
        assert!(count >= n);
        assert!(count < 2 * n);
        assert_eq!(u32::from(task.target_cidr() - 32), count.trailing_zeros());
    }
    assert_eq!(Task::new(base, 0x8000_0000).new_subnets(), 0x8000_0000);
    assert_eq!(Task::new(base, 0x8000_0001).target_cidr(), 64);
    assert_eq!(Task::new(base, u32::MAX).target_cidr(), 64);
}

#[test]
fn zero_subnets_behaves_as_one() {
    let task = Task::new(net4(192, 168, 0, 0, 24), 0);
    assert_eq!(task.target_cidr(), 24);
    assert_eq!(task.new_subnets(), 1);
    let nets = task.target_networks().unwrap();
    assert_eq!(nets.len(), 1);
    assert_eq!(nets[0].network_address_bits(), bits4(192, 168, 0, 0));
}

#[test]
fn one_subnet_of_the_whole_space() {
    let base = GenNet::<V6>::new(IpAddress::from_proxy(DOC_PREFIX), 0).unwrap();
    let task = Task::new(base, 1);
    let nets = task.target_networks().unwrap();
    assert_eq!(nets.len(), 1);
    assert_eq!(nets[0].cidr(), 0);
    assert_eq!(nets[0].broadcast_address_bits(), u128::MAX);
    let split = Task::new(base, 2).target_networks().unwrap();
    assert_eq!(split[1].network_address_bits(), 1u128 << 127);
}

#[test]
fn draw_bound_for_generated_exercises() {
    assert_eq!(max_subnets_for(30, 24, 32), 32);
    assert_eq!(max_subnets_for(30, 28, 32), 4);
    assert_eq!(max_subnets_for(30, 30, 32), 1);
    assert_eq!(max_subnets_for(64, 16, 32), 32);
    assert_eq!(max_subnets_for(64, 32, u32::MAX), u32::MAX);
    assert_eq!(max_subnets_for(64, 33, u32::MAX), 0x8000_0000);
}
