//! The layout of an Ethernet frame that carries IPv4 with TCP or UDP: where
//! the headers lie, how a frame is classified, and how the length fields and
//! checksums follow from the bytes.

use vstd::prelude::*;
use crate::checksum::{
    checksum_of, finish, lemma_all_ones_validates, lemma_checksum_validates,
    lemma_word_sum_update, sum_words, validates, word_sum,
};
use crate::error::LoadError;
use crate::wire::{get_u16, get_u32, put_u16, put_u32, read_u16, read_u32, write_u16, write_u32};

verus! {

/// Length of the Ethernet header; the IPv4 header begins here.
pub const ETH_LEN: usize = 14;

/// Where the Ethernet header names the protocol it carries.
pub const ETHERTYPE_OFFSET: usize = 12;

/// The Ethernet protocol number of IPv4.
pub const ETHERTYPE_IPV4: u16 = 0x0800;

/// Where the IPv4 header holds the datagram's total length.
pub const IP_LENGTH_OFFSET: usize = 16;

/// Where the IPv4 header names the transport protocol.
pub const IP_PROTOCOL_OFFSET: usize = 23;

/// Where the IPv4 header holds its checksum.
pub const IP_CHECKSUM_OFFSET: usize = 24;

/// Where the IPv4 header holds the source address.
pub const IP_SRC_OFFSET: usize = 26;

/// Where the IPv4 header holds the destination address.
pub const IP_DST_OFFSET: usize = 30;

/// The IPv4 protocol number of TCP.
pub const PROTOCOL_TCP: u8 = 6;

/// The IPv4 protocol number of UDP.
pub const PROTOCOL_UDP: u8 = 17;

/// The well-known port of DNS.
pub const DNS_PORT: u16 = 53;

/// Length of a UDP header.
pub const UDP_HEADER_LEN: usize = 8;

/// Length of a TCP header without options.
pub const TCP_HEADER_LEN: usize = 20;

/// Length of a DNS header.
pub const DNS_HEADER_LEN: usize = 12;

/// What a frame was found to be.
#[derive(Clone, Copy, Debug, PartialEq, Eq, Structural)]
pub enum Kind {
    /// Not looked at yet. No loaded frame has this kind.
    Unclassified,
    /// UDP over IPv4 with the DNS port at either end, holding a whole DNS
    /// header.
    DNS,
    /// TCP over IPv4.
    TCP,
    /// UDP over IPv4 that is not DNS.
    Other,
}

/// Where the parts of a classified frame lie.
#[derive(Clone, Copy, Debug, PartialEq, Eq, Structural)]
pub struct Layout {
    /// What the frame is.
    pub kind: Kind,
    /// Where the transport header begins.
    pub l4: usize,
    /// Where the IPv4 datagram ends; bytes from here on are link padding.
    pub end: usize,
}

impl Layout {
    /// The transport protocol number that goes with the kind.
    pub open spec fn protocol(self) -> int {
        if self.kind == Kind::TCP {
            PROTOCOL_TCP as int
        } else {
            PROTOCOL_UDP as int
        }
    }

    /// The least length of the transport part for the kind.
    pub open spec fn min_l4_len(self) -> int {
        match self.kind {
            Kind::TCP => TCP_HEADER_LEN as int,
            Kind::DNS => (UDP_HEADER_LEN + DNS_HEADER_LEN) as int,
            _ => UDP_HEADER_LEN as int,
        }
    }

    /// Where the transport header holds its checksum.
    pub open spec fn l4_checksum_offset(self) -> int {
        if self.kind == Kind::TCP {
            self.l4 + 16
        } else {
            self.l4 + 6
        }
    }

    /// Whether a buffer of `len` bytes has room for what the layout
    /// describes: an IPv4 header of 20 to 60 bytes behind the Ethernet
    /// header, then the transport header, all inside a datagram that the
    /// buffer holds whole.
    pub open spec fn fits(self, len: int) -> bool {
        &&& self.kind != Kind::Unclassified
        &&& ETH_LEN + 20 <= self.l4 <= ETH_LEN + 60
        &&& self.l4 % 4 == 2
        &&& self.l4 + self.min_l4_len() <= self.end <= len
        &&& self.end <= ETH_LEN + 0xFFFF
    }

    /// Whether the header fields of `s` that no rewriting touches say what
    /// the layout says: IPv4 in Ethernet, the header length and the
    /// transport protocol.
    pub open spec fn matches_protocols(self, s: Seq<u8>) -> bool {
        &&& get_u16(s, ETHERTYPE_OFFSET as int) == ETHERTYPE_IPV4
        &&& s[ETH_LEN as int] as int == 0x40 + (self.l4 - ETH_LEN) / 4
        &&& s[IP_PROTOCOL_OFFSET as int] as int == self.protocol()
    }

    /// Whether the length fields of `s` say what the layout says: the IPv4
    /// total length, and for DNS the UDP length.
    pub open spec fn matches_lengths(self, s: Seq<u8>) -> bool {
        &&& get_u16(s, IP_LENGTH_OFFSET as int) == self.end - ETH_LEN
        &&& self.kind == Kind::DNS ==> get_u16(s, self.l4 + 4) == self.end - self.l4
    }

    /// Whether the header fields of `s` say what the layout says.
    pub open spec fn matches_headers(self, s: Seq<u8>) -> bool {
        self.matches_protocols(s) && self.matches_lengths(s)
    }

    /// The layout with the datagram ending at `end`.
    pub open spec fn ending_at(self, end: int) -> Layout {
        Layout { kind: self.kind, l4: self.l4, end: end as usize }
    }
}

/// Whether a UDP datagram laid out from `l4` to `end` is taken as DNS: the
/// DNS port at either end, a UDP length that agrees with the IPv4 header,
/// and room for a DNS header.
pub open spec fn is_dns(s: Seq<u8>, l4: int, end: int) -> bool {
    &&& get_u16(s, l4) == DNS_PORT || get_u16(s, l4 + 2) == DNS_PORT
    &&& get_u16(s, l4 + 4) == end - l4
    &&& end - l4 >= UDP_HEADER_LEN + DNS_HEADER_LEN
}

/// The classification of a frame: its layout, or why it has none. The
/// tests are made in this order, and the first that fails decides.
///
/// Fragmentation is not looked at: a fragment is classified by what stands
/// where a transport header would be.
pub open spec fn classify(s: Seq<u8>) -> Result<Layout, LoadError> {
    if s.len() < ETH_LEN {
        Err(LoadError::Truncated)
    } else if get_u16(s, ETHERTYPE_OFFSET as int) != ETHERTYPE_IPV4 {
        Err(LoadError::UnsupportedLink)
    } else if s.len() < ETH_LEN + 20 {
        Err(LoadError::Truncated)
    } else if s[ETH_LEN as int] / 16 != 4 || s[ETH_LEN as int] % 16 < 5 {
        Err(LoadError::UnsupportedNetwork)
    } else {
        let header = (s[ETH_LEN as int] % 16) * 4;
        let total = get_u16(s, IP_LENGTH_OFFSET as int);
        let l4 = ETH_LEN + header;
        let end = ETH_LEN + total;
        if total < header {
            Err(LoadError::UnsupportedNetwork)
        } else if end > s.len() {
            Err(LoadError::Truncated)
        } else if s[IP_PROTOCOL_OFFSET as int] == PROTOCOL_TCP {
            if total - header < TCP_HEADER_LEN {
                Err(LoadError::Truncated)
            } else {
                Ok(Layout { kind: Kind::TCP, l4: l4 as usize, end: end as usize })
            }
        } else if s[IP_PROTOCOL_OFFSET as int] == PROTOCOL_UDP {
            if total - header < UDP_HEADER_LEN {
                Err(LoadError::Truncated)
            } else if is_dns(s, l4, end) {
                Ok(Layout { kind: Kind::DNS, l4: l4 as usize, end: end as usize })
            } else {
                Ok(Layout { kind: Kind::Other, l4: l4 as usize, end: end as usize })
            }
        } else {
            Err(LoadError::UnsupportedTransport)
        }
    }
}

/// A frame that has a layout has room for it, and its headers say what the
/// layout says.
pub proof fn lemma_classify_fits(s: Seq<u8>)
    requires
        classify(s) is Ok,
    ensures
        classify(s)->Ok_0.fits(s.len() as int),
        classify(s)->Ok_0.matches_headers(s),
{
}

/// Classify a frame.
pub fn classify_frame(data: &Vec<u8>) -> (r: Result<Layout, LoadError>)
    ensures
        r == classify(data@),
{
    let len = data.len();
    if len < ETH_LEN {
        return Err(LoadError::Truncated);
    }
    let ethertype: u16 = match read_u16(data, ETHERTYPE_OFFSET) {
        Ok(v) => v,
        Err(_) => { return Err(LoadError::Truncated); },
    };
    if ethertype != ETHERTYPE_IPV4 {
        return Err(LoadError::UnsupportedLink);
    }
    if len < ETH_LEN + 20 {
        return Err(LoadError::Truncated);
    }
    let first: u8 = data[ETH_LEN];
    if first / 16 != 4 || first % 16 < 5 {
        return Err(LoadError::UnsupportedNetwork);
    }
    let header: usize = ((first % 16) as usize) * 4;
    let total: usize = match read_u16(data, IP_LENGTH_OFFSET) {
        Ok(v) => v as usize,
        Err(_) => { return Err(LoadError::Truncated); },
    };
    let l4: usize = ETH_LEN + header;
    let end: usize = ETH_LEN + total;
    if total < header {
        return Err(LoadError::UnsupportedNetwork);
    }
    if end > len {
        return Err(LoadError::Truncated);
    }
    let protocol: u8 = data[IP_PROTOCOL_OFFSET];
    if protocol == PROTOCOL_TCP {
        if total - header < TCP_HEADER_LEN {
            return Err(LoadError::Truncated);
        }
        Ok(Layout { kind: Kind::TCP, l4, end })
    } else if protocol == PROTOCOL_UDP {
        if total - header < UDP_HEADER_LEN {
            return Err(LoadError::Truncated);
        }
        let src_port: u16 = match read_u16(data, l4) {
            Ok(v) => v,
            Err(_) => { return Err(LoadError::Truncated); },
        };
        let dst_port: u16 = match read_u16(data, l4 + 2) {
            Ok(v) => v,
            Err(_) => { return Err(LoadError::Truncated); },
        };
        let udp_len: usize = match read_u16(data, l4 + 4) {
            Ok(v) => v as usize,
            Err(_) => { return Err(LoadError::Truncated); },
        };
        if (src_port == DNS_PORT || dst_port == DNS_PORT) && udp_len == end - l4 && end - l4
            >= UDP_HEADER_LEN + DNS_HEADER_LEN {
            Ok(Layout { kind: Kind::DNS, l4, end })
        } else {
            Ok(Layout { kind: Kind::Other, l4, end })
        }
    } else {
        Err(LoadError::UnsupportedTransport)
    }
}

/// The sum of the words of the pseudo header that TCP and UDP put before
/// their own bytes when they compute a checksum: both addresses, the
/// protocol number and the length of the transport part.
pub open spec fn pseudo_sum(s: Seq<u8>, lay: Layout) -> nat {
    (get_u16(s, IP_SRC_OFFSET as int) + get_u16(s, IP_SRC_OFFSET + 2) + get_u16(
        s,
        IP_DST_OFFSET as int,
    ) + get_u16(s, IP_DST_OFFSET + 2) + lay.protocol() + (lay.end - lay.l4)) as nat
}

/// Whether the IPv4 header checksum of `s` passes the receiver's test.
pub open spec fn ip_checksum_valid(s: Seq<u8>, lay: Layout) -> bool {
    validates(word_sum(s.subrange(ETH_LEN as int, lay.l4 as int)))
}

/// Whether the TCP or UDP checksum of `s` passes the receiver's test.
pub open spec fn l4_checksum_valid(s: Seq<u8>, lay: Layout) -> bool {
    validates(pseudo_sum(s, lay) + word_sum(s.subrange(lay.l4 as int, lay.end as int)))
}

/// `s` with the IPv4 header checksum computed anew from the header.
pub open spec fn with_ip_checksum(s: Seq<u8>, lay: Layout) -> Seq<u8> {
    let cleared = put_u16(s, IP_CHECKSUM_OFFSET as int, 0);
    put_u16(
        cleared,
        IP_CHECKSUM_OFFSET as int,
        checksum_of(word_sum(cleared.subrange(ETH_LEN as int, lay.l4 as int))) as int,
    )
}

/// The checksum that a transport header stores for a sum: UDP, where a
/// stored zero means that there is no checksum, stores `0xFFFF` in place
/// of a computed zero.
pub open spec fn l4_checksum_value(sum: nat, lay: Layout) -> int {
    if lay.kind != Kind::TCP && checksum_of(sum) == 0 {
        0xFFFF
    } else {
        checksum_of(sum) as int
    }
}

/// `s` with the TCP or UDP checksum computed anew from the pseudo header
/// and the transport part.
pub open spec fn with_l4_checksum(s: Seq<u8>, lay: Layout) -> Seq<u8> {
    let cleared = put_u16(s, lay.l4_checksum_offset(), 0);
    put_u16(
        cleared,
        lay.l4_checksum_offset(),
        l4_checksum_value(
            pseudo_sum(cleared, lay) + word_sum(cleared.subrange(lay.l4 as int, lay.end as int)),
            lay,
        ),
    )
}

/// `s` with the length fields set to what the layout says: the IPv4 total
/// length, and for UDP the UDP length.
pub open spec fn with_lengths(s: Seq<u8>, lay: Layout) -> Seq<u8> {
    let t = put_u16(s, IP_LENGTH_OFFSET as int, lay.end - ETH_LEN);
    if lay.kind == Kind::TCP {
        t
    } else {
        put_u16(t, lay.l4 + 4, lay.end - lay.l4)
    }
}

/// `s` with its length fields and both checksums brought in line with its
/// bytes.
#[verifier::opaque]
pub open spec fn refreshed(s: Seq<u8>, lay: Layout) -> Seq<u8> {
    with_l4_checksum(with_ip_checksum(with_lengths(s, lay), lay), lay)
}

/// Writing a 16-bit number at an even place of a region changes the
/// region's sum by the difference to the number that was there.
pub proof fn lemma_word_sum_put(q: Seq<u8>, k: int, c: int)
    requires
        0 <= k,
        k + 2 <= q.len(),
        k % 2 == 0,
        0 <= c <= 0xFFFF,
    ensures
        word_sum(put_u16(q, k, c)) + get_u16(q, k) == word_sum(q) + c,
{
    let hi = (c / 256) as u8;
    let lo = (c % 256) as u8;
    let q1 = q.update(k, hi);
    lemma_word_sum_update(q, k, hi);
    lemma_word_sum_update(q1, k + 1, lo);
}

/// A region that is cut out of a buffer after a write inside it is the
/// region cut out before, with the write made in it.
pub proof fn lemma_put_in_region(s: Seq<u8>, a: int, b: int, k: int, c: int)
    requires
        0 <= a <= b <= s.len(),
        0 <= k,
        a + k + 2 <= b,
    ensures
        put_u16(s, a + k, c).subrange(a, b) == put_u16(s.subrange(a, b), k, c),
{
    assert(put_u16(s, a + k, c).subrange(a, b) =~= put_u16(s.subrange(a, b), k, c));
}

/// The IPv4 header checksum that was computed anew validates.
pub proof fn lemma_ip_checksum_validates(s: Seq<u8>, lay: Layout)
    requires
        lay.fits(s.len() as int),
    ensures
        ip_checksum_valid(with_ip_checksum(s, lay), lay),
        with_ip_checksum(s, lay).len() == s.len(),
{
    let a = ETH_LEN as int;
    let b = lay.l4 as int;
    let cleared = put_u16(s, IP_CHECKSUM_OFFSET as int, 0);
    let region = cleared.subrange(a, b);
    let c = checksum_of(word_sum(region)) as int;
    lemma_put_in_region(cleared, a, b, 10, c);
    lemma_word_sum_put(region, 10, c);
    lemma_checksum_validates(word_sum(region));
}

/// The TCP or UDP checksum that was computed anew validates.
pub proof fn lemma_l4_checksum_validates(s: Seq<u8>, lay: Layout)
    requires
        lay.fits(s.len() as int),
    ensures
        l4_checksum_valid(with_l4_checksum(s, lay), lay),
        with_l4_checksum(s, lay).len() == s.len(),
{
    let a = lay.l4 as int;
    let b = lay.end as int;
    let k = lay.l4_checksum_offset() - a;
    let cleared = put_u16(s, a + k, 0);
    let region = cleared.subrange(a, b);
    let sum = pseudo_sum(cleared, lay) + word_sum(region);
    let c = l4_checksum_value(sum, lay);
    let result = put_u16(cleared, a + k, c);
    lemma_put_in_region(cleared, a, b, k, c);
    lemma_word_sum_put(region, k, c);
    assert(pseudo_sum(result, lay) == pseudo_sum(cleared, lay));
    lemma_checksum_validates(sum);
    if checksum_of(sum) == 0 {
        lemma_all_ones_validates(sum);
    }
}

/// Bringing a frame in line with its bytes leaves it with two checksums
/// that validate and with the length fields that its layout says.
pub proof fn lemma_refreshed_valid(s: Seq<u8>, lay: Layout)
    requires
        lay.fits(s.len() as int),
    ensures
        refreshed(s, lay).len() == s.len(),
        ip_checksum_valid(refreshed(s, lay), lay),
        l4_checksum_valid(refreshed(s, lay), lay),
        get_u16(refreshed(s, lay), IP_LENGTH_OFFSET as int) == lay.end - ETH_LEN,
        lay.kind != Kind::TCP ==> get_u16(refreshed(s, lay), lay.l4 + 4) == lay.end - lay.l4,
{
    reveal(refreshed);
    let t = with_lengths(s, lay);
    let u = with_ip_checksum(t, lay);
    lemma_ip_checksum_validates(t, lay);
    lemma_l4_checksum_validates(u, lay);
    let off = lay.l4_checksum_offset();
    let cleared = put_u16(u, off, 0);
    let r = with_l4_checksum(u, lay);
    assert(r.subrange(ETH_LEN as int, lay.l4 as int) =~= u.subrange(
        ETH_LEN as int,
        lay.l4 as int,
    ));
}

/// Compute the IPv4 header checksum anew and store it.
pub(crate) fn store_ip_checksum(data: &mut Vec<u8>, lay: &Layout)
    requires
        lay.fits(old(data).len() as int),
    ensures
        final(data)@ == with_ip_checksum(old(data)@, *lay),
{
    let _ = write_u16(data, IP_CHECKSUM_OFFSET, 0);
    let sum = sum_words(data, ETH_LEN, lay.l4);
    let _ = write_u16(data, IP_CHECKSUM_OFFSET, finish(sum));
}

/// Compute the TCP or UDP checksum anew and store it.
pub(crate) fn store_l4_checksum(data: &mut Vec<u8>, lay: &Layout)
    requires
        lay.fits(old(data).len() as int),
    ensures
        final(data)@ == with_l4_checksum(old(data)@, *lay),
{
    let tcp = matches!(lay.kind, Kind::TCP);
    let offset: usize = if tcp {
        lay.l4 + 16
    } else {
        lay.l4 + 6
    };
    let _ = write_u16(data, offset, 0);
    let mut sum: u64 = sum_words(data, lay.l4, lay.end);
    proof {
        crate::checksum::lemma_word_sum_bound(data@.subrange(lay.l4 as int, lay.end as int));
    }
    sum = sum + sum_header_addresses(data);
    sum = sum + if tcp {
        PROTOCOL_TCP as u64
    } else {
        PROTOCOL_UDP as u64
    };
    sum = sum + (lay.end - lay.l4) as u64;
    let mut checksum: u16 = finish(sum);
    if !tcp && checksum == 0 {
        checksum = 0xFFFF;
    }
    let _ = write_u16(data, offset, checksum);
}

/// The sum of the four words of the two IPv4 addresses.
fn sum_header_addresses(data: &Vec<u8>) -> (sum: u64)
    requires
        data.len() >= ETH_LEN + 20,
    ensures
        sum == get_u16(data@, IP_SRC_OFFSET as int) + get_u16(data@, IP_SRC_OFFSET + 2) + get_u16(
            data@,
            IP_DST_OFFSET as int,
        ) + get_u16(data@, IP_DST_OFFSET + 2),
{
    let src: u32 = match read_u32(data, IP_SRC_OFFSET) {
        Ok(v) => v,
        Err(_) => 0,
    };
    let dst: u32 = match read_u32(data, IP_DST_OFFSET) {
        Ok(v) => v,
        Err(_) => 0,
    };
    (src / 0x10000) as u64 + (src % 0x10000) as u64 + (dst / 0x10000) as u64 + (dst
        % 0x10000) as u64
}

/// Bring the length fields and both checksums in line with the bytes.
pub(crate) fn refresh(data: &mut Vec<u8>, lay: &Layout)
    requires
        lay.fits(old(data).len() as int),
    ensures
        final(data)@ == refreshed(old(data)@, *lay),
        final(data)@.len() == old(data)@.len(),
{
    proof {
        reveal(refreshed);
    }
    let _ = write_u16(data, IP_LENGTH_OFFSET, (lay.end - ETH_LEN) as u16);
    if !matches!(lay.kind, Kind::TCP) {
        let _ = write_u16(data, lay.l4 + 4, (lay.end - lay.l4) as u16);
    }
    store_ip_checksum(data, lay);
    store_l4_checksum(data, lay);
}

/// Whether `i` is a place that bringing a frame in line may write to: the
/// IPv4 total length and checksum, the transport checksum, and for UDP the
/// UDP length.
pub open spec fn is_derived_field(lay: Layout, i: int) -> bool {
    ||| IP_LENGTH_OFFSET <= i < IP_LENGTH_OFFSET + 2
    ||| IP_CHECKSUM_OFFSET <= i < IP_CHECKSUM_OFFSET + 2
    ||| lay.l4_checksum_offset() <= i < lay.l4_checksum_offset() + 2
    ||| lay.kind != Kind::TCP && lay.l4 + 4 <= i < lay.l4 + 6
}

/// Bringing a frame in line with its bytes changes nothing but the length
/// fields and the checksums.
pub proof fn lemma_refreshed_keeps(s: Seq<u8>, lay: Layout)
    requires
        lay.fits(s.len() as int),
    ensures
        forall|i: int|
            0 <= i < s.len() && !is_derived_field(lay, i) ==> #[trigger] refreshed(s, lay)[i]
                == s[i],
{
    reveal(refreshed);
}

/// Bringing a frame in line with its bytes keeps the header fields that say
/// what the frame is, so that the layout describes the result.
pub proof fn lemma_refreshed_matches(s: Seq<u8>, lay: Layout)
    requires
        lay.fits(s.len() as int),
        lay.matches_protocols(s),
    ensures
        lay.matches_headers(refreshed(s, lay)),
{
    lemma_refreshed_valid(s, lay);
    lemma_refreshed_keeps(s, lay);
}

/// `s` with the source address and port replaced.
pub open spec fn with_src(s: Seq<u8>, lay: Layout, ip: u32, port: u16) -> Seq<u8> {
    put_u16(put_u32(s, IP_SRC_OFFSET as int, ip as int), lay.l4 as int, port as int)
}

/// `s` with the destination address and port replaced.
pub open spec fn with_dst(s: Seq<u8>, lay: Layout, ip: u32, port: u16) -> Seq<u8> {
    put_u16(put_u32(s, IP_DST_OFFSET as int, ip as int), lay.l4 + 2, port as int)
}

/// `s` with the two Ethernet addresses exchanged, the two IPv4 addresses
/// exchanged and the two ports exchanged: the frame that goes back to where
/// `s` came from.
#[verifier::opaque]
pub open spec fn turned_around(s: Seq<u8>, lay: Layout) -> Seq<u8> {
    let m = s.subrange(6, 12) + s.subrange(0, 6) + s.subrange(12, s.len() as int);
    with_dst(
        with_src(
            m,
            lay,
            get_u32(s, IP_DST_OFFSET as int) as u32,
            get_u16(s, lay.l4 + 2) as u16,
        ),
        lay,
        get_u32(s, IP_SRC_OFFSET as int) as u32,
        get_u16(s, lay.l4 as int) as u16,
    )
}

/// Replace the source address and port. Lengths and checksums are left as
/// they are.
pub(crate) fn put_src(data: &mut Vec<u8>, lay: &Layout, ip: u32, port: u16)
    requires
        lay.fits(old(data).len() as int),
    ensures
        final(data)@ == with_src(old(data)@, *lay, ip, port),
{
    let _ = write_u32(data, IP_SRC_OFFSET, ip);
    let _ = write_u16(data, lay.l4, port);
}

/// Replace the destination address and port. Lengths and checksums are left
/// as they are.
pub(crate) fn put_dst(data: &mut Vec<u8>, lay: &Layout, ip: u32, port: u16)
    requires
        lay.fits(old(data).len() as int),
    ensures
        final(data)@ == with_dst(old(data)@, *lay, ip, port),
{
    let _ = write_u32(data, IP_DST_OFFSET, ip);
    let _ = write_u16(data, lay.l4 + 2, port);
}

/// Exchange the two Ethernet addresses, the two IPv4 addresses and the two
/// ports. Lengths and checksums are left as they are.
pub(crate) fn turn_around(data: &mut Vec<u8>, lay: &Layout)
    requires
        lay.fits(old(data).len() as int),
    ensures
        final(data)@ == turned_around(old(data)@, *lay),
        final(data)@.len() == old(data)@.len(),
{
    proof {
        reveal(turned_around);
    }
    let ghost before = data@;
    let src_ip: u32 = match read_u32(data, IP_SRC_OFFSET) {
        Ok(v) => v,
        Err(_) => 0,
    };
    let dst_ip: u32 = match read_u32(data, IP_DST_OFFSET) {
        Ok(v) => v,
        Err(_) => 0,
    };
    let src_port: u16 = match read_u16(data, lay.l4) {
        Ok(v) => v,
        Err(_) => 0,
    };
    let dst_port: u16 = match read_u16(data, lay.l4 + 2) {
        Ok(v) => v,
        Err(_) => 0,
    };
    let mut i: usize = 0;
    while i < 6
        invariant
            i <= 6,
            data@.len() == before.len(),
            before.len() >= 12,
            forall|j: int| 0 <= j < i ==> #[trigger] data@[j] == before[j + 6],
            forall|j: int| 6 <= j < 6 + i ==> #[trigger] data@[j] == before[j - 6],
            forall|j: int|
                i <= j < before.len() && !(6 <= j < 6 + i) ==> #[trigger] data@[j] == before[j],
        decreases 6 - i,
    {
        let a: u8 = data[i];
        let b: u8 = data[i + 6];
        data[i] = b;
        data[i + 6] = a;
        i = i + 1;
    }
    assert(data@ =~= before.subrange(6, 12) + before.subrange(0, 6) + before.subrange(
        12,
        before.len() as int,
    ));
    put_src(data, lay, dst_ip, dst_port);
    put_dst(data, lay, src_ip, src_port);
}

/// Whether both checksums of `s` pass the receiver's test.
pub open spec fn checksums_valid(s: Seq<u8>, lay: Layout) -> bool {
    ip_checksum_valid(s, lay) && l4_checksum_valid(s, lay)
}

/// Replacing the source writes the source address and port and nothing
/// else.
pub proof fn lemma_with_src_fields(s: Seq<u8>, lay: Layout, ip: u32, port: u16)
    requires
        lay.fits(s.len() as int),
    ensures
        with_src(s, lay, ip, port).len() == s.len(),
        get_u32(with_src(s, lay, ip, port), IP_SRC_OFFSET as int) == ip,
        get_u16(with_src(s, lay, ip, port), lay.l4 as int) == port,
        forall|i: int|
            0 <= i < s.len() && !(IP_SRC_OFFSET <= i < IP_SRC_OFFSET + 4) && !(lay.l4 <= i < lay.l4
                + 2) ==> #[trigger] with_src(s, lay, ip, port)[i] == s[i],
{
}

/// Replacing the destination writes the destination address and port and
/// nothing else.
pub proof fn lemma_with_dst_fields(s: Seq<u8>, lay: Layout, ip: u32, port: u16)
    requires
        lay.fits(s.len() as int),
    ensures
        with_dst(s, lay, ip, port).len() == s.len(),
        get_u32(with_dst(s, lay, ip, port), IP_DST_OFFSET as int) == ip,
        get_u16(with_dst(s, lay, ip, port), lay.l4 + 2) == port,
        forall|i: int|
            0 <= i < s.len() && !(IP_DST_OFFSET <= i < IP_DST_OFFSET + 4) && !(lay.l4 + 2 <= i
                < lay.l4 + 4) ==> #[trigger] with_dst(s, lay, ip, port)[i] == s[i],
{
}

/// Turning a frame around exchanges the addresses of all three layers and
/// the ports, and changes nothing else.
pub proof fn lemma_turned_around_fields(s: Seq<u8>, lay: Layout)
    requires
        lay.fits(s.len() as int),
    ensures
        turned_around(s, lay).len() == s.len(),
        forall|i: int| 0 <= i < 6 ==> #[trigger] turned_around(s, lay)[i] == s[i + 6],
        forall|i: int| 6 <= i < 12 ==> #[trigger] turned_around(s, lay)[i] == s[i - 6],
        get_u32(turned_around(s, lay), IP_SRC_OFFSET as int) == get_u32(s, IP_DST_OFFSET as int),
        get_u32(turned_around(s, lay), IP_DST_OFFSET as int) == get_u32(s, IP_SRC_OFFSET as int),
        get_u16(turned_around(s, lay), lay.l4 as int) == get_u16(s, lay.l4 + 2),
        get_u16(turned_around(s, lay), lay.l4 + 2) == get_u16(s, lay.l4 as int),
        forall|i: int|
            12 <= i < s.len() && !(IP_SRC_OFFSET <= i < IP_DST_OFFSET + 4) && !(lay.l4 <= i
                < lay.l4 + 4) ==> #[trigger] turned_around(s, lay)[i] == s[i],
{
    reveal(turned_around);
    let m = s.subrange(6, 12) + s.subrange(0, 6) + s.subrange(12, s.len() as int);
    let a = with_src(
        m,
        lay,
        get_u32(s, IP_DST_OFFSET as int) as u32,
        get_u16(s, lay.l4 + 2) as u16,
    );
    lemma_with_src_fields(
        m,
        lay,
        get_u32(s, IP_DST_OFFSET as int) as u32,
        get_u16(s, lay.l4 + 2) as u16,
    );
    lemma_with_dst_fields(
        a,
        lay,
        get_u32(s, IP_SRC_OFFSET as int) as u32,
        get_u16(s, lay.l4 as int) as u16,
    );
    let t = turned_around(s, lay);
    assert(forall|i: int| 0 <= i < 6 ==> m[i] == s[i + 6]);
    assert(forall|i: int| 6 <= i < 12 ==> m[i] == s[i - 6]);
    assert(forall|i: int| 12 <= i < s.len() ==> m[i] == s[i]);
    assert(get_u32(t, IP_SRC_OFFSET as int) == get_u32(a, IP_SRC_OFFSET as int));
    assert(get_u16(t, lay.l4 as int) == get_u16(a, lay.l4 as int));
}

/// A frame that was brought in line with its bytes is in line: doing it
/// again changes nothing.
pub proof fn lemma_refreshed_idempotent(s: Seq<u8>, lay: Layout)
    requires
        lay.fits(s.len() as int),
    ensures
        refreshed(refreshed(s, lay), lay) == refreshed(s, lay),
{
    reveal(refreshed);
    let t = with_lengths(s, lay);
    let cleared_t = put_u16(t, IP_CHECKSUM_OFFSET as int, 0);
    let u = with_ip_checksum(t, lay);
    let off = lay.l4_checksum_offset();
    let cleared_u = put_u16(u, off, 0);
    let y = with_l4_checksum(u, lay);
    assert(y == refreshed(s, lay));
    // the lengths are there already
    let t2 = with_lengths(y, lay);
    assert(t2 =~= y);
    // the header checksum is computed from the same bytes
    let cleared_t2 = put_u16(t2, IP_CHECKSUM_OFFSET as int, 0);
    assert(cleared_t2.subrange(ETH_LEN as int, lay.l4 as int) =~= cleared_t.subrange(
        ETH_LEN as int,
        lay.l4 as int,
    ));
    let u2 = with_ip_checksum(t2, lay);
    assert(u2 =~= y);
    // and so is the transport checksum
    let cleared_u2 = put_u16(u2, off, 0);
    assert(cleared_u2 =~= cleared_u);
    let y2 = with_l4_checksum(u2, lay);
    assert(y2 =~= y);
}

/// Replacing the destination by what it is changes nothing.
pub proof fn lemma_with_dst_again(s: Seq<u8>, lay: Layout, ip: u32, port: u16)
    requires
        lay.fits(s.len() as int),
        get_u32(s, IP_DST_OFFSET as int) == ip,
        get_u16(s, lay.l4 + 2) == port,
    ensures
        with_dst(s, lay, ip, port) == s,
{
    crate::wire::lemma_put_same_u32(s, IP_DST_OFFSET as int);
    crate::wire::lemma_put_same_u16(s, lay.l4 + 2);
}

/// Replacing the source by what it is changes nothing.
pub proof fn lemma_with_src_again(s: Seq<u8>, lay: Layout, ip: u32, port: u16)
    requires
        lay.fits(s.len() as int),
        get_u32(s, IP_SRC_OFFSET as int) == ip,
        get_u16(s, lay.l4 as int) == port,
    ensures
        with_src(s, lay, ip, port) == s,
{
    crate::wire::lemma_put_same_u32(s, IP_SRC_OFFSET as int);
    crate::wire::lemma_put_same_u16(s, lay.l4 as int);
}

} // verus!
