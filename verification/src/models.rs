use vstd::prelude::*;

use crate::sys::{arphrd_ether, arpop_request};
use crate::text::{hex_byte, pad_right, pad_right_to, push_char, push_hex_byte};

verus! {

/// An IP address: IPv4 as its 32-bit value, IPv6 as its 128-bit value.
#[derive(Clone, Copy, Debug, PartialEq, Eq)]
pub enum IpAddr {
    V4(u32),
    V6(u128),
}

/// The IPv4 netmask of a prefix length: the `prefix` highest bits set.
pub open spec fn v4_prefix_mask(prefix: u8) -> u32 {
    if prefix == 0 {
        0
    } else {
        0xFFFF_FFFFu32 << ((32 - prefix) as u32)
    }
}

/// The mask applied to an IPv6 address for a prefix length: `prefix + 1`
/// one-bits whose highest is bit 64.
pub open spec fn v6_prefix_mask(prefix: u8) -> u128 {
    (((1u128 << ((prefix + 1) as u128)) - 1) as u128) << ((64 - prefix) as u128)
}

/// The value whose `n` lowest bits are set (`n <= 64`).
pub open spec fn low_ones_u64(n: u64) -> u64 {
    if n >= 64 { 0xFFFF_FFFF_FFFF_FFFFu64 } else { ((1u64 << n) - 1) as u64 }
}

fn v4_mask(mask: u8) -> (bitmask: u32)
    requires
        mask <= 32,
    ensures
        bitmask == v4_prefix_mask(mask),
{
    let mut bitmask: u32 = 1;
    let mut i: u8 = 0;
    assert(1u32 == low_ones_u64(1u64) as u32) by (bit_vector);
    while i < mask
        invariant
            i <= mask <= 32,
            bitmask == low_ones_u64((i + 1) as u64) as u32,
        decreases mask - i,
    {
        let b = bitmask;
        let k = i as u64;
        assert((b << 1u32) <= 0xFFFF_FFFEu32) by (bit_vector);
        assert(k < 32 && b == low_ones_u64((k + 1) as u64) as u32 ==> ((b << 1u32) + 1) as u32 == low_ones_u64((k + 2) as u64) as u32) by (bit_vector);
        bitmask = (bitmask << 1) + 1;
        i = i + 1;
    }
    let mut j: u8 = 0;
    let ghost m = mask as u64;
    let b0 = bitmask;
    assert(b0 == low_ones_u64((m + 1) as u64) as u32 ==> b0 == (low_ones_u64((m + 1) as u64) << 0u64) as u32) by (bit_vector);
    while j < 32 - mask
        invariant
            mask <= 32,
            m == mask as u64,
            j <= 32 - mask,
            bitmask == (low_ones_u64((m + 1) as u64) << (j as u64)) as u32,
        decreases 32 - mask - j,
    {
        let b = bitmask;
        let jj = j as u64;
        assert(m <= 32 && jj < 32 - m && b == (low_ones_u64((m + 1) as u64) << jj) as u32 ==> (b << 1u32) == (low_ones_u64((m + 1) as u64) << ((jj + 1) as u64)) as u32) by (bit_vector);
        bitmask = bitmask << 1;
        j = j + 1;
    }
    let b = bitmask;
    assert(m <= 32 && b == (low_ones_u64((m + 1) as u64) << ((32 - m) as u64)) as u32 ==> b == (if m == 0 { 0u32 } else { 0xFFFF_FFFFu32 << ((32 - m) as u32) })) by (bit_vector);
    bitmask
}

/// The value whose `n` lowest bits are set (`n <= 128`).
pub open spec fn low_ones_u128(n: u128) -> u128 {
    if n >= 128 { 0xFFFF_FFFF_FFFF_FFFF_FFFF_FFFF_FFFF_FFFFu128 } else { ((1u128 << n) - 1) as u128 }
}

fn v6_mask(mask: u8) -> (bitmask: u128)
    requires
        mask <= 64,
    ensures
        bitmask == v6_prefix_mask(mask),
{
    let mut bitmask: u128 = 1;
    let mut i: u8 = 0;
    assert(1u128 == low_ones_u128(1u128)) by (bit_vector);
    while i < mask
        invariant
            i <= mask <= 64,
            bitmask == low_ones_u128((i + 1) as u128),
        decreases mask - i,
    {
        let b = bitmask;
        let k = i as u128;
        assert(k < 64 && b == low_ones_u128((k + 1) as u128) ==> (b << 1u128) + 1 <= 0xFFFF_FFFF_FFFF_FFFF_FFFF_FFFF_FFFF_FFFFu128 && ((b << 1u128) + 1) as u128 == low_ones_u128((k + 2) as u128)) by (bit_vector);
        bitmask = (bitmask << 1) + 1;
        i = i + 1;
    }
    let mut j: u8 = 0;
    let ghost m = mask as u128;
    let b0 = bitmask;
    assert(b0 == (low_ones_u128((m + 1) as u128) << 0u128)) by (bit_vector)
        requires b0 == low_ones_u128((m + 1) as u128);
    while j < 64 - mask
        invariant
            mask <= 64,
            m == mask as u128,
            j <= 64 - mask,
            bitmask == low_ones_u128((m + 1) as u128) << (j as u128),
        decreases 64 - mask - j,
    {
        let b = bitmask;
        let jj = j as u128;
        assert(m <= 64 && jj < 64 - m && b == low_ones_u128((m + 1) as u128) << jj ==> (b << 1u128) == low_ones_u128((m + 1) as u128) << ((jj + 1) as u128)) by (bit_vector);
        bitmask = bitmask << 1;
        j = j + 1;
    }
    let b = bitmask;
    assert(m <= 64 && b == low_ones_u128((m + 1) as u128) << ((64 - m) as u128) ==> b == ((((1u128 << ((m + 1) as u128)) - 1) as u128) << ((64 - m) as u128))) by (bit_vector);
    bitmask
}

/// An IP network: an address and a prefix length.
#[derive(Debug, PartialEq, Eq)]
pub struct Subnet {
    pub ip: IpAddr,
    pub mask: u8,
}

/// The prefix lengths that `Subnet::new` accepts for an address: at most 32
/// for IPv4 and at most 64 for IPv6.
pub open spec fn prefix_accepted(addr: IpAddr, mask: u8) -> bool {
    match addr {
        IpAddr::V4(_) => mask <= 32,
        IpAddr::V6(_) => mask <= 64,
    }
}

/// The address with the bits outside its prefix mask cleared.
pub open spec fn masked_address(addr: IpAddr, mask: u8) -> IpAddr {
    match addr {
        IpAddr::V4(a) => IpAddr::V4(a & v4_prefix_mask(mask)),
        IpAddr::V6(a) => IpAddr::V6(a & v6_prefix_mask(mask)),
    }
}

/// The number of addresses in an IPv4 block of prefix length `mask`
/// (`1 <= mask <= 32`): 2 to the power of the host bits.
pub open spec fn v4_block_size(mask: u8) -> nat {
    (1u64 << ((32 - mask) as u64)) as nat
}

/// The host addresses of an IPv4 block: those after the network address
/// and before the broadcast address.
pub open spec fn v4_host_ips(net: u32, mask: u8) -> Seq<u32> {
    let n = v4_block_size(mask) - 2;
    Seq::new(if n > 0 { n as nat } else { 0 }, |i: int| (net + 1 + i) as u32)
}

/// What `get_subnet_ips` needs: an IPv4 prefix of 1 to 32 bits whose last
/// host address does not pass `u32::MAX`; IPv6 needs nothing.
pub open spec fn host_ips_defined(subnet: Subnet) -> bool {
    match subnet.ip {
        IpAddr::V4(net) => 1 <= subnet.mask <= 32 && net + v4_block_size(subnet.mask) - 2 <= u32::MAX,
        IpAddr::V6(_) => true,
    }
}

/// The addresses `get_subnet_ips` lists: the host addresses for IPv4, none
/// for IPv6.
pub open spec fn subnet_ips(subnet: Subnet) -> Seq<u32> {
    match subnet.ip {
        IpAddr::V4(net) => v4_host_ips(net, subnet.mask),
        IpAddr::V6(_) => Seq::empty(),
    }
}

impl Subnet {
    /// The network of `addr` with prefix length `mask`.
    pub fn new(addr: IpAddr, mask: u8) -> (subnet: Subnet)
        requires
            prefix_accepted(addr, mask),
        ensures
            subnet.ip == masked_address(addr, mask),
            subnet.mask == mask,
    {
        match addr {
            IpAddr::V4(addr_v4) => {
                let bitmask = v4_mask(mask);
                Subnet { ip: IpAddr::V4(addr_v4 & bitmask), mask }
            },
            IpAddr::V6(addr_v6) => {
                let bitmask = v6_mask(mask);
                Subnet { ip: IpAddr::V6(addr_v6 & bitmask), mask }
            },
        }
    }

    /// Whether `get_subnet_ips` can list this subnet's addresses: an IPv6
    /// subnet, or an IPv4 prefix of 1 to 32 bits whose last host address
    /// stays within the IPv4 range.
    pub fn lists_hosts(&self) -> (ok: bool)
        ensures
            ok == host_ips_defined(*self),
    {
        match self.ip {
            IpAddr::V4(net) => {
                if self.mask < 1 || self.mask > 32 {
                    return false;
                }
                let shift: u64 = (32 - self.mask) as u64;
                let block: u64 = 1u64 << shift;
                assert(block as nat == v4_block_size(self.mask));
                assert(shift <= 31 ==> 1u64 << shift <= 0x8000_0000u64) by (bit_vector);
                net as u64 + block <= 0x1_0000_0001u64
            },
            IpAddr::V6(_) => true,
        }
    }

    /// The IPv4 host addresses of the subnet, in increasing order.
    pub fn get_subnet_ips(&self) -> (res: Vec<u32>)
        requires
            host_ips_defined(*self),
        ensures
            res@ == subnet_ips(*self),
            match self.ip {
                IpAddr::V4(net) => {
                    &&& self.mask <= 30 ==> res@.len() + 2 == (1u64 << ((32 - self.mask) as u64)) as nat
                    &&& self.mask > 30 ==> res@.len() == 0
                    &&& forall|i: int| 0 <= i < res@.len() ==> #[trigger] res@[i] == net + 1 + i
                },
                IpAddr::V6(_) => res@.len() == 0,
            },
    {
        proof {
            lemma_subnet_ips_shape(*self);
        }
        let mut res: Vec<u32> = Vec::new();
        if let IpAddr::V4(ip) = self.ip {
            let m = self.mask;
            let shift: u32 = (32 - m) as u32;
            let sh = shift as u64;
            assert(1 <= sh <= 31 || sh == 0 ==> (1u32 << shift) as u64 == 1u64 << sh) by (bit_vector)
                requires sh == shift as u64;
            assert(sh <= 31 ==> (1u64 << sh) >= 1u64) by (bit_vector);
            let possibles: u32 = 1u32 << shift;
            assert(possibles as nat == v4_block_size(m));
            let mut i: u32 = 1;
            while i < possibles - 1
                invariant
                    1 <= i,
                    possibles >= 1,
                    possibles as nat == v4_block_size(m),
                    ip + possibles - 2 <= u32::MAX,
                    i <= possibles - 1 || possibles <= 2,
                    possibles <= 2 ==> i == 1,
                    res@ == v4_host_ips(ip, m).take(i - 1),
                    i - 1 <= v4_host_ips(ip, m).len() || possibles <= 2,
                decreases possibles - i,
            {
                res.push(ip + i);
                i = i + 1;
            }
            proof {
                let hosts = v4_host_ips(ip, m);
                if possibles > 2 {
                    assert(hosts.len() == possibles - 2);
                    assert(hosts.take(i - 1) =~= hosts);
                } else {
                    assert(hosts.len() == 0);
                    assert(res@ =~= hosts);
                }
            }
        }
        res
    }
}

/// A subnet lists each host address of its block once, in increasing
/// order: for IPv4, `2^(32 - mask) - 2` addresses (none for prefixes of
/// 31 and 32 bits), the `i`-th being `net + 1 + i`; for IPv6, none.
pub proof fn lemma_subnet_ips_shape(s: Subnet)
    requires
        host_ips_defined(s),
    ensures
        match s.ip {
            IpAddr::V4(net) => {
                &&& s.mask <= 30 ==> subnet_ips(s).len() + 2 == (1u64 << ((32 - s.mask) as u64)) as nat
                &&& s.mask > 30 ==> subnet_ips(s).len() == 0
                &&& forall|i: int| 0 <= i < subnet_ips(s).len() ==> #[trigger] subnet_ips(s)[i] == net + 1 + i
                &&& forall|i: int, j: int| 0 <= i < j < subnet_ips(s).len() ==> subnet_ips(s)[i] < subnet_ips(s)[j]
            },
            IpAddr::V6(_) => subnet_ips(s).len() == 0,
        },
{
    if let IpAddr::V4(net) = s.ip {
        let sh = (32 - s.mask) as u64;
        assert(sh <= 31 ==> (1u64 << sh) <= 0x8000_0000u64) by (bit_vector);
        assert(2 <= sh <= 31 ==> (1u64 << sh) >= 4u64) by (bit_vector);
        assert(sh <= 1 ==> (1u64 << sh) <= 2u64) by (bit_vector);
        let hosts = subnet_ips(s);
        assert forall|i: int| 0 <= i < hosts.len() implies #[trigger] hosts[i] == net + 1 + i by {
            assert(net + 1 + i <= u32::MAX);
        }
    }
}

/// Building a subnet from the address of a subnet built with the same
/// prefix length gives that subnet again.
pub proof fn lemma_subnet_new_idempotent(addr: IpAddr, mask: u8)
    requires
        prefix_accepted(addr, mask),
    ensures
        masked_address(masked_address(addr, mask), mask) == masked_address(addr, mask),
{
    match addr {
        IpAddr::V4(a) => {
            let m = v4_prefix_mask(mask);
            assert((a & m) & m == a & m) by (bit_vector);
        },
        IpAddr::V6(a) => {
            let m = v6_prefix_mask(mask);
            assert((a & m) & m == a & m) by (bit_vector);
        },
    }
}

/// The broadcast address of an IPv4 block: all host bits set.
pub open spec fn v4_broadcast(net: u32, mask: u8) -> u32 {
    net | !v4_prefix_mask(mask)
}

/// A subnet built from an IPv4 address with a prefix of 1 to 32 bits can
/// list its host addresses.
pub proof fn lemma_new_subnet_lists_hosts(a: u32, mask: u8)
    requires
        1 <= mask <= 32,
    ensures
        host_ips_defined(Subnet { ip: masked_address(IpAddr::V4(a), mask), mask }),
{
    let m = v4_prefix_mask(mask);
    let sh = (32 - mask) as u32;
    assert(m == 0xFFFF_FFFFu32 << sh);
    assert(sh <= 31 ==> ((a & (0xFFFF_FFFFu32 << sh)) as u64) + (1u64 << (sh as u64)) <= 0x1_0000_0000u64) by (bit_vector);
}

/// The addresses a subnet lists are exactly the addresses of its block
/// other than the network and the broadcast address.
pub proof fn lemma_host_ips_exact(net: u32, mask: u8, x: u32)
    requires
        1 <= mask <= 32,
        net & v4_prefix_mask(mask) == net,
    ensures
        v4_host_ips(net, mask).contains(x) <==> (x & v4_prefix_mask(mask) == net && x != net && x != v4_broadcast(net, mask)),
{
    let sh = (32 - mask) as u32;
    let m = v4_prefix_mask(mask);
    assert(m == 0xFFFF_FFFFu32 << sh);
    let hosts = v4_host_ips(net, mask);
    let b = v4_block_size(mask);
    assert(sh <= 31 && net & (0xFFFF_FFFFu32 << sh) == net ==> (net as u64) + (1u64 << (sh as u64)) <= 0x1_0000_0000u64) by (bit_vector);
    if hosts.contains(x) {
        let i = choose|i: int| 0 <= i < hosts.len() && hosts[i] == x;
        let k = (1 + i) as u32;
        assert(x == net + k);
        assert(1 <= k && (k as u64) + 1 < (1u64 << (sh as u64)));
        assert(sh <= 31 && net & (0xFFFF_FFFFu32 << sh) == net && 1 <= k && (k as u64) + 1 < (1u64 << (sh as u64)) && (net as u64) + (k as u64) <= 0xFFFF_FFFFu64
            ==> ((net + k) as u32) & (0xFFFF_FFFFu32 << sh) == net && ((net + k) as u32) != net && ((net + k) as u32) != (net | !(0xFFFF_FFFFu32 << sh))) by (bit_vector);
    }
    if x & m == net && x != net && x != v4_broadcast(net, mask) {
        assert(sh <= 31 && x & (0xFFFF_FFFFu32 << sh) == net && x != net && x != (net | !(0xFFFF_FFFFu32 << sh))
            ==> x >= net + 1 && ((x - net) as u64) + 1 < (1u64 << (sh as u64))) by (bit_vector);
        let i = x - net - 1;
        assert(0 <= i < hosts.len());
        assert(hosts[i] == x);
    }
}

/// An IPv4 address lies among the hosts its own subnet lists exactly when
/// it is neither the network nor the broadcast address of that subnet.
pub proof fn lemma_own_address_listed(ip: u32, mask: u8)
    requires
        1 <= mask <= 32,
    ensures
        ({
            let net = ip & v4_prefix_mask(mask);
            subnet_ips(Subnet { ip: masked_address(IpAddr::V4(ip), mask), mask }).contains(ip)
                <==> (ip != net && ip != v4_broadcast(net, mask))
        }),
{
    let m = v4_prefix_mask(mask);
    let net = ip & m;
    assert((ip & m) & m == ip & m) by (bit_vector);
    lemma_host_ips_exact(net, mask, ip);
}

/// The two bytes of `x` in network (big-endian) order.
pub open spec fn be_u16(x: u16) -> Seq<u8> {
    seq![(x >> 8u16) as u8, x as u8]
}

/// The four bytes of an IPv4 address in network order.
pub open spec fn ipv4_octets(ip: u32) -> Seq<u8> {
    seq![(ip >> 24u32) as u8, (ip >> 16u32) as u8, (ip >> 8u32) as u8, ip as u8]
}

/// The IPv4 address whose octets, most significant first, are `b`.
pub open spec fn ipv4_from_bytes(b: Seq<u8>) -> u32 {
    (((b[0] as u32) << 24u32) | ((b[1] as u32) << 16u32) | ((b[2] as u32) << 8u32) | (b[3] as u32)) as u32
}

/// Reading back the octets of an IPv4 address gives the address.
pub proof fn lemma_octets_roundtrip(ip: u32)
    ensures
        ipv4_from_bytes(ipv4_octets(ip)) == ip,
{
    assert(((((ip >> 24u32) as u8) as u32) << 24u32 | (((ip >> 16u32) as u8) as u32) << 16u32 | (((ip >> 8u32) as u8) as u32) << 8u32 | ((ip as u8) as u32)) == ip) by (bit_vector);
}

/// The bytes of `x` in network order.
pub fn u16_to_be_bytes(x: u16) -> (out: [u8; 2])
    ensures
        out@ == be_u16(x),
{
    let out = [(x >> 8) as u8, (x & 0xff) as u8];
    assert((x & 0xffu16) as u8 == x as u8) by (bit_vector);
    assert(out@ =~= be_u16(x));
    out
}

/// The octets of an IPv4 address, most significant first.
pub fn octets(ip: u32) -> (out: [u8; 4])
    ensures
        out@ == ipv4_octets(ip),
{
    let out = [(ip >> 24) as u8, (ip >> 16) as u8, (ip >> 8) as u8, ip as u8];
    assert(out@ =~= ipv4_octets(ip));
    out
}

/// The IPv4 address whose octets, most significant first, are `bytes`.
pub fn ipv4_from_octets(bytes: [u8; 4]) -> (ip: u32)
    ensures
        ip == ipv4_from_bytes(bytes@),
        ipv4_octets(ip) == bytes@,
{
    let (a, b, c, d) = (bytes[0], bytes[1], bytes[2], bytes[3]);
    let ip: u32 = ((a as u32) << 24) | ((b as u32) << 16) | ((c as u32) << 8) | (d as u32);
    assert(((((a as u32) << 24u32) | ((b as u32) << 16u32) | ((c as u32) << 8u32) | (d as u32)) >> 24u32) as u8 == a) by (bit_vector);
    assert(((((a as u32) << 24u32) | ((b as u32) << 16u32) | ((c as u32) << 8u32) | (d as u32)) >> 16u32) as u8 == b) by (bit_vector);
    assert(((((a as u32) << 24u32) | ((b as u32) << 16u32) | ((c as u32) << 8u32) | (d as u32)) >> 8u32) as u8 == c) by (bit_vector);
    assert((((a as u32) << 24u32) | ((b as u32) << 16u32) | ((c as u32) << 8u32) | (d as u32)) as u8 == d) by (bit_vector);
    assert(ipv4_octets(ip) =~= bytes@);
    ip
}

/// A device found on the network.
#[derive(Debug)]
pub struct Device {
    pub ip: String,
    pub mac: MacAddress,
    pub device_type: String,
}

/// The header of an ICMP message.
#[allow(non_camel_case_types)]
#[derive(Clone, Copy, Debug, PartialEq, Eq)]
pub struct icmphdr {
    pub icmp_type: u8,
    pub code: u8,
    pub checksum: u16,
    pub id: u16,
    pub seq: u16,
}

/// The eight bytes of an ICMP header as sent on the wire: type, code, then
/// checksum, identifier and sequence number in network order.
pub open spec fn icmp_header_bytes(h: icmphdr) -> Seq<u8> {
    seq![h.icmp_type, h.code] + be_u16(h.checksum) + be_u16(h.id) + be_u16(h.seq)
}

impl icmphdr {
    /// The header in wire format.
    pub fn to_bytes(&self) -> (out: [u8; 8])
        ensures
            out@ == icmp_header_bytes(*self),
    {
        let c = u16_to_be_bytes(self.checksum);
        let i = u16_to_be_bytes(self.id);
        let s = u16_to_be_bytes(self.seq);
        let out = [self.icmp_type, self.code, c[0], c[1], i[0], i[1], s[0], s[1]];
        assert(out@ =~= icmp_header_bytes(*self));
        out
    }
}

/// A 48-bit hardware (MAC) address.
#[derive(Clone, Copy, Debug, PartialEq, Eq)]
pub struct MacAddress {
    pub addr: [u8; 6],
}

/// The text of a hardware address: its six bytes as two lower-case
/// hexadecimal digits each, separated by colons.
pub open spec fn mac_text(addr: Seq<u8>) -> Seq<char> {
    hex_byte(addr[0]) + seq![':'] + hex_byte(addr[1]) + seq![':'] + hex_byte(addr[2]) + seq![':']
        + hex_byte(addr[3]) + seq![':'] + hex_byte(addr[4]) + seq![':'] + hex_byte(addr[5])
}

impl MacAddress {
    /// The address as text, as in "0a:1b:2c:3d:4e:5f", padded with spaces
    /// on the right to `width` characters when a width is given.
    pub fn fmt(&self, width: Option<usize>) -> (text: String)
        ensures
            text@ == match width {
                Some(w) => pad_right(mac_text(self.addr@), w as nat),
                None => mac_text(self.addr@),
            },
    {
        let a = self.addr;
        let mut mac = String::new();
        push_hex_byte(&mut mac, a[0]);
        push_char(&mut mac, ':');
        push_hex_byte(&mut mac, a[1]);
        push_char(&mut mac, ':');
        push_hex_byte(&mut mac, a[2]);
        push_char(&mut mac, ':');
        push_hex_byte(&mut mac, a[3]);
        push_char(&mut mac, ':');
        push_hex_byte(&mut mac, a[4]);
        push_char(&mut mac, ':');
        push_hex_byte(&mut mac, a[5]);
        assert(mac@ =~= mac_text(self.addr@));
        match width {
            Some(w) => pad_right_to(mac.as_str(), w),
            None => mac,
        }
    }
}

/// The fixed part of an ARP message.
#[derive(Clone, Copy, Debug, PartialEq, Eq)]
pub struct ArpHeader {
    pub ar_hrd: u16,
    pub ar_pro: u16,
    pub ar_hln: u8,
    pub ar_pln: u8,
    pub ar_op: u16,
}

/// An ARP message for IPv4 over Ethernet.
#[allow(non_camel_case_types)]
#[derive(Clone, Copy, Debug, PartialEq, Eq)]
pub struct arpreq {
    pub arphdr: ArpHeader,
    pub src_mac: [u8; 6],
    pub src_ip: [u8; 4],
    pub dst_mac: [u8; 6],
    pub dst_ip: [u8; 4],
}

/// The 28 bytes of an ARP message on the wire: the header fields in network
/// order, then sender hardware and protocol address, then target hardware
/// and protocol address.
pub open spec fn arp_message_bytes(r: arpreq) -> Seq<u8> {
    be_u16(r.arphdr.ar_hrd) + be_u16(r.arphdr.ar_pro) + seq![r.arphdr.ar_hln, r.arphdr.ar_pln]
        + be_u16(r.arphdr.ar_op) + r.src_mac@ + r.src_ip@ + r.dst_mac@ + r.dst_ip@
}

/// The EtherType of IPv4, the protocol type of an ARP message for IPv4.
pub const PROTO_IPV4: u16 = 0x0800;

impl arpreq {
    /// An ARP request from `src_mac`/`src_ip` asking for the hardware
    /// address of `dst_ip`.
    pub fn request(src_mac: MacAddress, src_ip: u32, dst_ip: u32) -> (req: arpreq)
        ensures
            req.arphdr == (ArpHeader { ar_hrd: 1, ar_pro: PROTO_IPV4, ar_hln: 6, ar_pln: 4, ar_op: 1 }),
            req.src_mac == src_mac.addr,
            req.src_ip@ == ipv4_octets(src_ip),
            req.dst_mac@ == seq![0u8, 0u8, 0u8, 0u8, 0u8, 0u8],
            req.dst_ip@ == ipv4_octets(dst_ip),
    {
        let hdr = ArpHeader {
            ar_hrd: arphrd_ether(),
            ar_pro: PROTO_IPV4,
            ar_hln: 6,
            ar_pln: 4,
            ar_op: arpop_request(),
        };
        let dst_mac = [0u8; 6];
        assert(dst_mac@ =~= seq![0u8, 0u8, 0u8, 0u8, 0u8, 0u8]);
        arpreq {
            arphdr: hdr,
            src_mac: src_mac.addr,
            src_ip: octets(src_ip),
            dst_mac,
            dst_ip: octets(dst_ip),
        }
    }

    /// The message in wire format.
    pub fn to_bytes(&self) -> (out: [u8; 28])
        ensures
            out@ == arp_message_bytes(*self),
    {
        let hrd = u16_to_be_bytes(self.arphdr.ar_hrd);
        let pro = u16_to_be_bytes(self.arphdr.ar_pro);
        let op = u16_to_be_bytes(self.arphdr.ar_op);
        let sm = self.src_mac;
        let si = self.src_ip;
        let dm = self.dst_mac;
        let di = self.dst_ip;
        let out = [
            hrd[0], hrd[1], pro[0], pro[1], self.arphdr.ar_hln, self.arphdr.ar_pln, op[0], op[1],
            sm[0], sm[1], sm[2], sm[3], sm[4], sm[5], si[0], si[1], si[2], si[3],
            dm[0], dm[1], dm[2], dm[3], dm[4], dm[5], di[0], di[1], di[2], di[3],
        ];
        assert(out@ =~= arp_message_bytes(*self));
        out
    }
}

/// The failures of network discovery. An `os_error` is the operating
/// system's error number at the time of the failure.
#[derive(Debug)]
pub enum DiscoverError {
    SocketError { os_error: i32 },
    NetworkInterfaceNotFound,
    KernelError { os_error: i32, details: String },
    SendMessageError { sock_type: String, os_error: i32 },
    InternalError { details: String },
}

/// The local interface used for a scan.
#[derive(Debug, PartialEq)]
pub struct NetworkInterface {
    pub ifname: String,
    pub ip: u32,
    pub mac: MacAddress,
    pub subnet: Subnet,
}

/// A socket address as the host's address tables hold it.
#[derive(Clone, Copy, Debug, PartialEq, Eq)]
pub enum SockAddr {
    /// An IPv4 address; `addr` holds its octets in network order.
    Inet { addr: [u8; 4] },
    /// A link-layer address: `halen` significant bytes of `hwaddr`.
    Packet { halen: u8, hwaddr: [u8; 8] },
    /// An address of another family.
    Other { family: u16 },
}

/// One entry of the host's interface address table: an interface name, the
/// address of the entry (absent when the table holds none) and the octets
/// of its netmask.
#[derive(Debug)]
pub struct InterfaceAddress {
    pub name: String,
    pub addr: Option<SockAddr>,
    pub netmask: [u8; 4],
}

/// Why the local interface could not be determined: the stage that failed
/// and its error.
#[derive(Debug)]
pub enum AddrLookupError {
    /// The local IPv4 address could not be retrieved.
    LocalAddress(DiscoverError),
    /// The netmask and hardware address of the interface holding `ip` could
    /// not be fetched.
    InterfaceDetails { ip: u32, error: DiscoverError },
}

} // verus!
