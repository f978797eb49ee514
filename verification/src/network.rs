use vstd::prelude::*;

use crate::models::{
    be_u16, icmp_header_bytes, icmphdr, ipv4_from_bytes, ipv4_from_octets, AddrLookupError, DiscoverError, InterfaceAddress,
    IpAddr, MacAddress, NetworkInterface, SockAddr, Subnet, masked_address,
};

verus! {

/// The sum of 16-bit words, without wrap-around.
pub open spec fn word_sum(words: Seq<u16>) -> nat
    decreases words.len(),
{
    if words.len() == 0 {
        0
    } else {
        word_sum(words.drop_last()) + words.last() as nat
    }
}

/// One end-around-carry fold: the carry above bit 15 added back in.
pub open spec fn fold_carry(x: u32) -> u32 {
    ((x >> 16u32) + (x & 0xffffu32)) as u32
}

/// The Internet checksum (RFC 1071) of a few words: the one's complement of
/// their one's complement sum, the sum folded twice.
pub open spec fn internet_checksum(words: Seq<u16>) -> u16 {
    !(fold_carry(fold_carry(word_sum(words) as u32)) as u16)
}

/// Whether words that carry their checksum verify: their one's complement
/// sum is all ones.
pub open spec fn checksum_verifies(words: Seq<u16>) -> bool {
    fold_carry(fold_carry(word_sum(words) as u32)) == 0xffff
}

/// The 16-bit word of two bytes, the first one most significant.
pub open spec fn be_word(hi: u8, lo: u8) -> u16 {
    (((hi as u16) << 8u16) | (lo as u16)) as u16
}

/// The 16-bit words of an ICMP header that its checksum covers: type and
/// code as one word, then checksum, identifier and sequence number.
pub open spec fn header_words(h: icmphdr) -> Seq<u16> {
    seq![be_word(h.icmp_type, h.code), h.checksum, h.id, h.seq]
}

/// The word of the two network-order bytes of `x` is `x`.
pub proof fn lemma_be_word_roundtrip(x: u16)
    ensures
        be_word(be_u16(x)[0], be_u16(x)[1]) == x,
{
    assert((((((x >> 8u16) as u8) as u16) << 8u16) | ((x as u8) as u16)) as u16 == x) by (bit_vector);
}

/// The words an ICMP checksum covers are the header's wire bytes taken in
/// pairs, so the checksum computed over the words is the checksum of the
/// bytes sent.
pub proof fn lemma_header_words_are_wire_pairs(h: icmphdr)
    ensures
        forall|i: int| 0 <= i < 4 ==> #[trigger] header_words(h)[i] == be_word(icmp_header_bytes(h)[2 * i], icmp_header_bytes(h)[2 * i + 1]),
{
    lemma_be_word_roundtrip(h.checksum);
    lemma_be_word_roundtrip(h.id);
    lemma_be_word_roundtrip(h.seq);
    let b = icmp_header_bytes(h);
    assert(b[0] == h.icmp_type && b[1] == h.code);
    assert(b[2] == be_u16(h.checksum)[0] && b[3] == be_u16(h.checksum)[1]);
    assert(b[4] == be_u16(h.id)[0] && b[5] == be_u16(h.id)[1]);
    assert(b[6] == be_u16(h.seq)[0] && b[7] == be_u16(h.seq)[1]);
}

/// The word made of two bytes, the first one most significant.
pub fn word_from_bytes(hi: u8, lo: u8) -> (w: u16)
    ensures
        w == be_word(hi, lo),
{
    ((hi as u16) << 8) | (lo as u16)
}

/// The Internet checksum of four words.
pub fn checksum_of(words: [u16; 4]) -> (sum: u16)
    ensures
        sum == internet_checksum(words@),
{
    let mut total: u32 = 0;
    let mut i: usize = 0;
    while i < 4
        invariant
            i <= 4,
            total as nat == word_sum(words@.take(i as int)),
            total <= i * 0xffff,
        decreases 4 - i,
    {
        assert(words@.take((i + 1) as int).drop_last() =~= words@.take(i as int));
        total += words[i] as u32;
        i += 1;
    }
    assert(words@.take(4) =~= words@);
    let t0 = total;
    assert((t0 >> 16u32) + (t0 & 0xffffu32) <= 0x1fffe) by (bit_vector);
    total = (total >> 16) + (total & 0xffff);
    let t1 = total;
    assert((t1 >> 16u32) + (t1 & 0xffffu32) <= 0x1fffe) by (bit_vector);
    total = (total >> 16) + (total & 0xffff);
    !(total as u16)
}

/// The ICMP echo request that a ping sends: type 8, code 0, identifier 0,
/// sequence number 1, and the Internet checksum of the header taken with a
/// zero checksum field; the header with that checksum verifies.
pub fn create_icmp_ping_message() -> (hdr: icmphdr)
    ensures
        hdr.icmp_type == 8,
        hdr.code == 0,
        hdr.id == 0,
        hdr.seq == 1,
        hdr.checksum == internet_checksum(header_words(icmphdr { checksum: 0, ..hdr })),
        checksum_verifies(header_words(hdr)),
{
    let mut hdr = icmphdr { icmp_type: 8u8, code: 0u8, checksum: 0u16, id: 0, seq: 1u16 };
    let words: [u16; 4] = [word_from_bytes(hdr.icmp_type, hdr.code), hdr.checksum, hdr.id, hdr.seq];
    assert(words@ =~= header_words(hdr));
    let ghost zeroed = hdr;
    hdr.checksum = checksum_of(words);
    proof {
        lemma_checksum_verifies(header_words(zeroed));
        assert(header_words(zeroed).update(1, hdr.checksum) =~= header_words(hdr));
    }
    hdr
}

/// Inserting the Internet checksum of four words, computed with a zero in
/// the second word, into that word makes them verify.
pub proof fn lemma_checksum_verifies(words: Seq<u16>)
    requires
        words.len() == 4,
        words[1] == 0,
    ensures
        checksum_verifies(words.update(1, internet_checksum(words))),
{
    let (a, b, c, d) = (words[0], words[1], words[2], words[3]);
    let k = internet_checksum(words);
    let w2 = words.update(1, k);
    reveal_with_fuel(word_sum, 5);
    assert(words.drop_last().drop_last().drop_last().drop_last() =~= Seq::<u16>::empty());
    assert(w2.drop_last().drop_last().drop_last().drop_last() =~= Seq::<u16>::empty());
    assert(word_sum(words) == a + c + d);
    assert(word_sum(w2) == a + k + c + d);
    let s = (a + c + d) as u32;
    assert(k == !(fold_carry(fold_carry(s)) as u16));
    assert(s <= 3 * 0xffff);
    assert(s <= 0x2fffdu32 ==> fold_carry(fold_carry((s + (!(fold_carry(fold_carry(s)) as u16)) as u32) as u32)) == 0xffffu32) by (bit_vector);
}

/// The number of set bits among the `n` lowest bits of `x`.
pub open spec fn ones_below(x: u32, n: nat) -> nat
    decreases n,
{
    if n == 0 {
        0
    } else {
        ones_below(x, (n - 1) as nat) + (if (x >> ((n - 1) as u32)) & 1u32 == 1u32 { 1nat } else { 0nat })
    }
}

/// The number of set bits of `x`.
pub open spec fn count_ones(x: u32) -> nat {
    ones_below(x, 32)
}

/// The number of set bits of `x`.
pub fn ones_in(x: u32) -> (n: u32)
    ensures
        n == count_ones(x),
        n <= 32,
{
    let mut n: u32 = 0;
    let mut i: u32 = 0;
    while i < 32
        invariant
            i <= 32,
            n == ones_below(x, i as nat),
            n <= i,
        decreases 32 - i,
    {
        let bit = (x >> i) & 1;
        assert(bit <= 1) by (bit_vector)
            requires bit == (x >> i) & 1u32;
        n = n + bit;
        i = i + 1;
    }
    n
}

/// The IPv4 address a socket address holds, if it holds one.
pub open spec fn inet_address(a: SockAddr) -> Option<u32> {
    match a {
        SockAddr::Inet { addr } => Some(ipv4_from_bytes(addr@)),
        _ => None,
    }
}

/// The IPv4 address of a socket address of the IPv4 family, `None` for
/// any other family.
pub fn parse_addr_info(sockaddr: &SockAddr) -> (ip: Option<u32>)
    ensures
        ip == inet_address(*sockaddr),
{
    match sockaddr {
        SockAddr::Inet { addr } => Some(ipv4_from_octets(*addr)),
        _ => None,
    }
}

/// Whether an entry of an address list holds an IPv4 address.
pub open spec fn holds_ipv4(entry: Option<SockAddr>) -> bool {
    entry matches Some(a) && inet_address(a) is Some
}

/// The position of the first entry of `addrs` that holds an IPv4 address,
/// or the length of `addrs` when none does.
pub open spec fn first_ipv4_entry(addrs: Seq<Option<SockAddr>>) -> nat
    decreases addrs.len(),
{
    if addrs.len() == 0 {
        0
    } else if holds_ipv4(addrs[0]) {
        0
    } else {
        1 + first_ipv4_entry(addrs.drop_first())
    }
}

proof fn lemma_first_ipv4_entry(addrs: Seq<Option<SockAddr>>, k: int)
    requires
        0 <= k <= addrs.len(),
        forall|i: int| 0 <= i < k ==> !holds_ipv4(#[trigger] addrs[i]),
        k == addrs.len() || holds_ipv4(addrs[k]),
    ensures
        first_ipv4_entry(addrs) == k,
    decreases k,
{
    if k > 0 {
        let rest = addrs.drop_first();
        assert forall|i: int| 0 <= i < k - 1 implies !holds_ipv4(#[trigger] rest[i]) by {
            assert(rest[i] == addrs[i + 1]);
        }
        if k < addrs.len() {
            assert(rest[k - 1] == addrs[k]);
        }
        lemma_first_ipv4_entry(rest, k - 1);
        assert(!holds_ipv4(addrs[0]));
    }
}

/// The first IPv4 address of an address list.
pub open spec fn local_ipv4(addrs: Seq<Option<SockAddr>>) -> Option<u32> {
    let k = first_ipv4_entry(addrs);
    if k < addrs.len() {
        inet_address(addrs[k as int]->0)
    } else {
        None
    }
}

/// The local IPv4 address: the first IPv4 address among the addresses the
/// host name resolves to; `NetworkInterfaceNotFound` when there is none.
pub fn getaddr(addrs: &Vec<Option<SockAddr>>) -> (res: Result<u32, DiscoverError>)
    ensures
        match local_ipv4(addrs@) {
            Some(ip) => res == Ok::<u32, DiscoverError>(ip),
            None => res == Err::<u32, DiscoverError>(DiscoverError::NetworkInterfaceNotFound),
        },
{
    let mut i: usize = 0;
    while i < addrs.len()
        invariant
            i <= addrs@.len(),
            forall|j: int| 0 <= j < i ==> !holds_ipv4(#[trigger] addrs@[j]),
        decreases addrs@.len() - i,
    {
        if let Some(sockaddr) = &addrs[i] {
            if let Some(ip) = parse_addr_info(sockaddr) {
                proof {
                    assert(addrs@[i as int] == Some(*sockaddr));
                    assert(inet_address(*sockaddr) is Some);
                    assert(holds_ipv4(addrs@[i as int]));
                                        lemma_first_ipv4_entry(addrs@, i as int);
                }
                return Ok(ip);
            }
        }
        assert(!holds_ipv4(addrs@[i as int]));
        i += 1;
    }
    proof {
        lemma_first_ipv4_entry(addrs@, addrs@.len() as int);
    }
    Err(DiscoverError::NetworkInterfaceNotFound)
}

/// Whether an interface table entry holds the IPv4 address `ip`.
pub open spec fn has_address(e: InterfaceAddress, ip: u32) -> bool {
    e.addr matches Some(a) && inet_address(a) == Some(ip)
}

/// The position of the first entry holding `ip`, or the table's length.
pub open spec fn first_with_address(entries: Seq<InterfaceAddress>, ip: u32) -> nat
    decreases entries.len(),
{
    if entries.len() == 0 {
        0
    } else if has_address(entries[0], ip) {
        0
    } else {
        1 + first_with_address(entries.drop_first(), ip)
    }
}

proof fn lemma_first_with_address(entries: Seq<InterfaceAddress>, ip: u32, k: int)
    requires
        0 <= k <= entries.len(),
        forall|i: int| 0 <= i < k ==> !has_address(#[trigger] entries[i], ip),
        k == entries.len() || has_address(entries[k], ip),
    ensures
        first_with_address(entries, ip) == k,
    decreases k,
{
    if k > 0 {
        let rest = entries.drop_first();
        assert forall|i: int| 0 <= i < k - 1 implies !has_address(#[trigger] rest[i], ip) by {
            assert(rest[i] == entries[i + 1]);
        }
        if k < entries.len() {
            assert(rest[k - 1] == entries[k]);
        }
        lemma_first_with_address(rest, ip, k - 1);
        assert(!has_address(entries[0], ip));
    }
}

/// Whether an entry is a six-byte link-layer address of the interface
/// called `name`.
pub open spec fn is_ethernet_link(e: InterfaceAddress, name: Seq<char>) -> bool {
    &&& e.name@ == name
    &&& e.addr matches Some(SockAddr::Packet { halen, .. }) && halen == 6
}

/// The position of the first Ethernet link entry of interface `name`, or
/// the table's length.
pub open spec fn first_ethernet_link(entries: Seq<InterfaceAddress>, name: Seq<char>) -> nat
    decreases entries.len(),
{
    if entries.len() == 0 {
        0
    } else if is_ethernet_link(entries[0], name) {
        0
    } else {
        1 + first_ethernet_link(entries.drop_first(), name)
    }
}

proof fn lemma_first_ethernet_link(entries: Seq<InterfaceAddress>, name: Seq<char>, k: int)
    requires
        0 <= k <= entries.len(),
        forall|i: int| 0 <= i < k ==> !is_ethernet_link(#[trigger] entries[i], name),
        k == entries.len() || is_ethernet_link(entries[k], name),
    ensures
        first_ethernet_link(entries, name) == k,
    decreases k,
{
    if k > 0 {
        let rest = entries.drop_first();
        assert forall|i: int| 0 <= i < k - 1 implies !is_ethernet_link(#[trigger] rest[i], name) by {
            assert(rest[i] == entries[i + 1]);
        }
        if k < entries.len() {
            assert(rest[k - 1] == entries[k]);
        }
        lemma_first_ethernet_link(rest, name, k - 1);
        assert(!is_ethernet_link(entries[0], name));
    }
}

/// The first six bytes of a link-layer address entry.
pub open spec fn link_address(e: InterfaceAddress) -> Seq<u8> {
    match e.addr {
        Some(SockAddr::Packet { hwaddr, .. }) => hwaddr@.take(6),
        _ => Seq::empty(),
    }
}

/// The hardware address, the prefix length and the name of the interface
/// that holds `ip`: the first entry holding `ip` gives the name and the
/// netmask, whose set bits are the prefix length; the first Ethernet link
/// entry of that name gives the hardware address. `None` when either entry
/// is missing.
pub open spec fn interface_details(entries: Seq<InterfaceAddress>, ip: u32) -> Option<(Seq<u8>, nat, Seq<char>)> {
    let k = first_with_address(entries, ip);
    if k >= entries.len() {
        None
    } else {
        let e = entries[k as int];
        let j = first_ethernet_link(entries, e.name@);
        if j >= entries.len() {
            None
        } else {
            Some((link_address(entries[j as int]), count_ones(ipv4_from_bytes(e.netmask@)), e.name@))
        }
    }
}

/// The hardware address, prefix length and name of the interface that
/// holds `ip`, looked up in the host's interface address table.
pub fn getaddr_details(ip: u32, entries: &Vec<InterfaceAddress>) -> (res: Result<(MacAddress, u8, String), DiscoverError>)
    ensures
        match interface_details(entries@, ip) {
            None => res == Err::<(MacAddress, u8, String), DiscoverError>(DiscoverError::NetworkInterfaceNotFound),
            Some((mac, mask, name)) => res matches Ok((m, k, n)) && m.addr@ == mac && k as nat == mask && n@ == name,
        },
        res matches Ok((_, k, _)) ==> k <= 32,
{
    let mut i: usize = 0;
    let mut found: Option<usize> = None;
    while i < entries.len()
        invariant_except_break
            found is None,
        invariant
            i <= entries@.len(),
            forall|j: int| 0 <= j < i ==> !has_address(#[trigger] entries@[j], ip),
        ensures
            found matches Some(k) ==> k == i && i < entries@.len() && has_address(entries@[i as int], ip),
            found is None ==> i == entries@.len(),
            forall|j: int| 0 <= j < i ==> !has_address(#[trigger] entries@[j], ip),
        decreases entries@.len() - i,
    {
        let matched = match &entries[i].addr {
            Some(sockaddr) => match parse_addr_info(sockaddr) {
                Some(if_ip) => if_ip == ip,
                None => false,
            },
            None => false,
        };
        if matched {
            found = Some(i);
            break;
        }
        i += 1;
    }
    proof {
        lemma_first_with_address(entries@, ip, i as int);
    }
    let k = match found {
        Some(k) => k,
        None => {
            return Err(DiscoverError::NetworkInterfaceNotFound);
        },
    };
    let entry = &entries[k];
    let mask = ones_in(ipv4_from_octets(entry.netmask)) as u8;
    let ifname = entry.name.clone();
    let mut j: usize = 0;
    let mut mac: Option<MacAddress> = None;
    while j < entries.len()
        invariant_except_break
            mac is None,
        invariant
            j <= entries@.len(),
            ifname@ == entries@[k as int].name@,
            forall|l: int| 0 <= l < j ==> !is_ethernet_link(#[trigger] entries@[l], ifname@),
        ensures
            mac matches Some(m) ==> j < entries@.len() && is_ethernet_link(entries@[j as int], ifname@) && m.addr@ == link_address(entries@[j as int]),
            mac is None ==> j == entries@.len(),
            forall|l: int| 0 <= l < j ==> !is_ethernet_link(#[trigger] entries@[l], ifname@),
        decreases entries@.len() - j,
    {
        let e = &entries[j];
        if e.name == ifname {
            if let Some(SockAddr::Packet { halen, hwaddr }) = &e.addr {
                if *halen == 6 {
                    let bytes = [hwaddr[0], hwaddr[1], hwaddr[2], hwaddr[3], hwaddr[4], hwaddr[5]];
                    assert(bytes@ =~= hwaddr@.take(6));
                    mac = Some(MacAddress { addr: bytes });
                    break;
                }
            }
        }
        j += 1;
    }
    proof {
        lemma_first_ethernet_link(entries@, ifname@, j as int);
    }
    match mac {
        Some(m) => Ok((m, mask, ifname)),
        None => Err(DiscoverError::NetworkInterfaceNotFound),
    }
}

/// The local interface: the local IPv4 address, taken from the addresses
/// the host name resolves to (`addr_lookup`), and the hardware address,
/// netmask and name of the interface that holds it, taken from the
/// interface address table (`if_lookup`); its subnet is the address under
/// the netmask's prefix. A failed read, or an address or interface that
/// cannot be found, is reported with the stage at which it happened.
pub fn get_netw_addr(
    addr_lookup: Result<Vec<Option<SockAddr>>, DiscoverError>,
    if_lookup: Result<Vec<InterfaceAddress>, DiscoverError>,
) -> (res: Result<NetworkInterface, AddrLookupError>)
    ensures
        match addr_lookup {
            Err(e) => res == Err::<NetworkInterface, AddrLookupError>(AddrLookupError::LocalAddress(e)),
            Ok(addrs) => match local_ipv4(addrs@) {
                None => res == Err::<NetworkInterface, AddrLookupError>(
                    AddrLookupError::LocalAddress(DiscoverError::NetworkInterfaceNotFound),
                ),
                Some(ip) => match if_lookup {
                    Err(e) => res == Err::<NetworkInterface, AddrLookupError>(
                        AddrLookupError::InterfaceDetails { ip, error: e },
                    ),
                    Ok(entries) => match interface_details(entries@, ip) {
                        None => res == Err::<NetworkInterface, AddrLookupError>(
                            AddrLookupError::InterfaceDetails { ip, error: DiscoverError::NetworkInterfaceNotFound },
                        ),
                        Some((mac, mask, name)) => res matches Ok(ni) && {
                            &&& ni.ip == ip
                            &&& ni.mac.addr@ == mac
                            &&& ni.ifname@ == name
                            &&& ni.subnet == (Subnet { ip: masked_address(IpAddr::V4(ip), mask as u8), mask: mask as u8 })
                        },
                    },
                },
            },
        },
{
    let addrs = match addr_lookup {
        Ok(addrs) => addrs,
        Err(e) => {
            return Err(AddrLookupError::LocalAddress(e));
        },
    };
    let ip = match getaddr(&addrs) {
        Ok(ip) => ip,
        Err(e) => {
            return Err(AddrLookupError::LocalAddress(e));
        },
    };
    let entries = match if_lookup {
        Ok(entries) => entries,
        Err(e) => {
            return Err(AddrLookupError::InterfaceDetails { ip, error: e });
        },
    };
    match getaddr_details(ip, &entries) {
        Ok((mac, netmask, ifname)) => Ok(
            NetworkInterface { ifname, ip, mac, subnet: Subnet::new(IpAddr::V4(ip), netmask) },
        ),
        Err(e) => Err(AddrLookupError::InterfaceDetails { ip, error: e }),
    }
}

/// What a receive on the ping socket gave: the bytes of a datagram and its
/// sender, or a failure, which may be the receive timing out.
pub enum RecvOutcome {
    Received { data: Vec<u8>, from: SockAddr },
    Failed { would_block: bool, os_error: i32 },
}

/// The ICMP type of a received message: its first byte, 0 when the
/// datagram is empty.
pub open spec fn message_type(data: Seq<u8>) -> u8 {
    if data.len() == 0 { 0 } else { data[0] }
}

/// The host that answered a ping: the IPv4 sender of a received echo reply
/// (ICMP type 0). A timed-out receive answers `None`; another failure is a
/// socket error.
pub fn recv_ping(outcome: RecvOutcome) -> (res: Result<Option<u32>, DiscoverError>)
    ensures
        match outcome {
            RecvOutcome::Failed { would_block, os_error } => if would_block {
                res == Ok::<Option<u32>, DiscoverError>(None)
            } else {
                res == Err::<Option<u32>, DiscoverError>(DiscoverError::SocketError { os_error })
            },
            RecvOutcome::Received { data, from } => res == Ok::<Option<u32>, DiscoverError>(
                if message_type(data@) == 0 { inet_address(from) } else { None },
            ),
        },
        match outcome {
            RecvOutcome::Received { data, from } => data@.len() > 0 ==> res == Ok::<Option<u32>, DiscoverError>(
                if data@[0] == 0 { inet_address(from) } else { None },
            ),
            _ => true,
        },
{
    match outcome {
        RecvOutcome::Failed { would_block, os_error } => {
            if would_block {
                Ok(None)
            } else {
                Err(DiscoverError::SocketError { os_error })
            }
        },
        RecvOutcome::Received { data, from } => {
            let first: u8 = if data.len() == 0 { 0 } else { data[0] };
            if first == 0 {
                if let Some(ip) = parse_addr_info(&from) {
                    return Ok(Some(ip));
                }
            }
            Ok(None)
        },
    }
}

/// The type of a received ICMP message is its first byte: an echo reply
/// (first byte 0) from an IPv4 sender names that sender whatever its other
/// bytes, and any other first byte names nobody.
pub proof fn lemma_reply_decided_by_first_byte(data: Seq<u8>, from: SockAddr)
    requires
        data.len() > 0,
    ensures
        message_type(data) == data[0],
        (if message_type(data) == 0 { inet_address(from) } else { None }) == (if data[0] == 0 {
            match from {
                SockAddr::Inet { addr } => Some(ipv4_from_bytes(addr@)),
                _ => None,
            }
        } else {
            None
        }),
{
}

/// The prefix length read from a netmask counts its set bits: the netmask
/// of a prefix of `p` bits gives back `p`.
pub proof fn lemma_prefix_mask_ones(p: u8)
    requires
        p <= 32,
    ensures
        count_ones(crate::models::v4_prefix_mask(p)) == p,
{
    let m = crate::models::v4_prefix_mask(p);
    let q = p as u32;
    assert(q == 0 ==> m == 0u32);
    let sh = (32 - q) as u32;
    assert(q > 0 ==> m == 0xFFFF_FFFFu32 << sh);
    lemma_ones_of_prefix_mask(m, q, sh, 32);
}

proof fn lemma_ones_of_prefix_mask(m: u32, q: u32, sh: u32, n: nat)
    requires
        q <= 32,
        n <= 32,
        sh == 32 - q,
        q == 0 ==> m == 0u32,
        q > 0 ==> m == 0xFFFF_FFFFu32 << sh,
    ensures
        ones_below(m, n) == (if n + q <= 32 { 0 } else { n + q - 32 }),
    decreases n,
{
    if n > 0 {
        lemma_ones_of_prefix_mask(m, q, sh, (n - 1) as nat);
        let i = (n - 1) as u32;
        assert(i < 32 && q <= 32 && sh == 32 - q && (q == 0 ==> m == 0u32) && (q > 0 ==> m == 0xFFFF_FFFFu32 << sh)
            ==> (((m >> i) & 1u32 == 1u32) == (i + q >= 32))) by (bit_vector);
    }
}

/// The position of the first Ethernet link entry of `name` is the length
/// of the table or an entry that is one, with none before it.
proof fn lemma_first_ethernet_link_props(entries: Seq<InterfaceAddress>, name: Seq<char>)
    ensures
        first_ethernet_link(entries, name) <= entries.len(),
        first_ethernet_link(entries, name) < entries.len() ==> is_ethernet_link(entries[first_ethernet_link(entries, name) as int], name),
        forall|l: int| 0 <= l < first_ethernet_link(entries, name) ==> !is_ethernet_link(#[trigger] entries[l], name),
    decreases entries.len(),
{
    if entries.len() > 0 && !is_ethernet_link(entries[0], name) {
        let rest = entries.drop_first();
        lemma_first_ethernet_link_props(rest, name);
        assert forall|l: int| 0 <= l < first_ethernet_link(entries, name) implies !is_ethernet_link(#[trigger] entries[l], name) by {
            if l > 0 {
                assert(entries[l] == rest[l - 1]);
            }
        }
    }
}

/// The interface found for `ip` is the one of the first table entry that
/// holds `ip`: its name, the number of set bits of that entry's netmask as
/// the prefix length, and the six bytes of the first Ethernet link entry of
/// that name as the hardware address; nothing is found when no Ethernet
/// link entry has that name.
pub proof fn lemma_interface_details_of_first_entry(entries: Seq<InterfaceAddress>, ip: u32, k: int)
    requires
        0 <= k < entries.len(),
        has_address(entries[k], ip),
        forall|i: int| 0 <= i < k ==> !has_address(#[trigger] entries[i], ip),
    ensures
        match interface_details(entries, ip) {
            Some((mac, mask, name)) => {
                &&& mask == count_ones(ipv4_from_bytes(entries[k].netmask@))
                &&& name == entries[k].name@
                &&& exists|j: int| {
                    &&& 0 <= j < entries.len()
                    &&& is_ethernet_link(entries[j], name)
                    &&& (forall|l: int| 0 <= l < j ==> !is_ethernet_link(#[trigger] entries[l], name))
                    &&& mac == link_address(entries[j])
                }
            },
            None => forall|j: int| 0 <= j < entries.len() ==> !is_ethernet_link(#[trigger] entries[j], entries[k].name@),
        },
{
    lemma_first_with_address(entries, ip, k);
    let name = entries[k].name@;
    lemma_first_ethernet_link_props(entries, name);
    let j = first_ethernet_link(entries, name) as int;
    if j < entries.len() {
        assert(is_ethernet_link(entries[j], name));
    }
}

/// No interface is found for an address that no table entry holds.
pub proof fn lemma_interface_details_absent(entries: Seq<InterfaceAddress>, ip: u32)
    requires
        forall|i: int| 0 <= i < entries.len() ==> !has_address(#[trigger] entries[i], ip),
    ensures
        interface_details(entries, ip) is None,
{
    lemma_first_with_address(entries, ip, entries.len() as int);
}

} // verus!
