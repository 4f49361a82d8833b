use dns_nat::context::Context;
use dns_nat::error::{BoundsError, Disposition, LoadError, ParseError};
use dns_nat::forwarder::TrafficForwarder;
use dns_nat::frame::{classify_frame, Kind, Layout};
use dns_nat::resolver::DnsResolver;
use dns_nat::table::{NatTable, ServiceRegistry};
use dns_nat::types::{DnsQuery, DnsRecordA, NatKey, NatOrigin};
use dns_nat::{
    egress_forwarder, ingress_forwarder, resolver, try_forward_egress, try_forward_ingress,
    try_resolve_dns,
};

const MAC_A: [u8; 6] = [0x02, 0x00, 0x00, 0x00, 0x00, 0x0A];
const MAC_B: [u8; 6] = [0x02, 0x00, 0x00, 0x00, 0x00, 0x0B];

const REQUESTER: u32 = 0xC0A8010A; // 192.168.1.10
const NAMESERVER: u32 = 0xC0A80101; // 192.168.1.1
const SERVICE: u32 = 0x0A000005; // 10.0.0.5
const BACKEND: NatOrigin = NatOrigin { ip: 0x0A000163, port: 8080 }; // 10.0.1.99:8080

fn be16(v: u16) -> [u8; 2] {
    v.to_be_bytes()
}

fn be32(v: u32) -> [u8; 4] {
    v.to_be_bytes()
}

fn at16(frame: &[u8], offset: usize) -> u16 {
    u16::from_be_bytes([frame[offset], frame[offset + 1]])
}

fn at32(frame: &[u8], offset: usize) -> u32 {
    u32::from_be_bytes([frame[offset], frame[offset + 1], frame[offset + 2], frame[offset + 3]])
}

/// The ones' complement sum of the words of `data`, carries added back in.
fn ones_sum(parts: &[&[u8]]) -> u16 {
    let mut sum: u32 = 0;
    for data in parts {
        let mut i = 0;
        while i < data.len() {
            let hi = data[i] as u32;
            let lo = if i + 1 < data.len() { data[i + 1] as u32 } else { 0 };
            sum += hi * 256 + lo;
            while sum >> 16 != 0 {
                sum = (sum & 0xFFFF) + (sum >> 16);
            }
            i += 2;
        }
    }
    sum as u16
}

fn pseudo_header(frame: &[u8], protocol: u8, l4: usize, end: usize) -> Vec<u8> {
    let mut p = Vec::new();
    p.extend_from_slice(&frame[26..34]);
    p.push(0);
    p.push(protocol);
    p.extend_from_slice(&be16((end - l4) as u16));
    p
}

fn ip_checksum_validates(frame: &[u8]) -> bool {
    let l4 = 14 + ((frame[14] & 0x0F) as usize) * 4;
    ones_sum(&[&frame[14..l4]]) == 0xFFFF
}

fn l4_checksum_validates(frame: &[u8]) -> bool {
    let l4 = 14 + ((frame[14] & 0x0F) as usize) * 4;
    let end = 14 + at16(frame, 16) as usize;
    let pseudo = pseudo_header(frame, frame[23], l4, end);
    ones_sum(&[&pseudo, &frame[l4..end]]) == 0xFFFF
}

/// An Ethernet frame with an IPv4 header of `options.len() + 20` bytes and
/// `segment` behind it. The header checksum is set; the segment is taken
/// as it is.
fn frame_with_options(
    protocol: u8,
    src: u32,
    dst: u32,
    options: &[u8],
    segment: &[u8],
    padding: &[u8],
) -> Vec<u8> {
    assert!(options.len() % 4 == 0);
    let header_len = 20 + options.len();
    let mut f = Vec::new();
    f.extend_from_slice(&MAC_B);
    f.extend_from_slice(&MAC_A);
    f.extend_from_slice(&be16(0x0800));
    f.push(0x40 + (header_len / 4) as u8);
    f.push(0);
    f.extend_from_slice(&be16((header_len + segment.len()) as u16));
    f.extend_from_slice(&be16(0x1234));
    f.extend_from_slice(&be16(0x4000));
    f.push(64);
    f.push(protocol);
    f.extend_from_slice(&be16(0));
    f.extend_from_slice(&be32(src));
    f.extend_from_slice(&be32(dst));
    f.extend_from_slice(options);
    let checksum = !ones_sum(&[&f[14..14 + header_len]]);
    f[24..26].copy_from_slice(&be16(checksum));
    f.extend_from_slice(segment);
    f.extend_from_slice(padding);
    f
}

fn frame(protocol: u8, src: u32, dst: u32, segment: &[u8]) -> Vec<u8> {
    frame_with_options(protocol, src, dst, &[], segment, &[])
}

fn udp(src_port: u16, dst_port: u16, payload: &[u8]) -> Vec<u8> {
    let mut s = Vec::new();
    s.extend_from_slice(&be16(src_port));
    s.extend_from_slice(&be16(dst_port));
    s.extend_from_slice(&be16((8 + payload.len()) as u16));
    s.extend_from_slice(&be16(0));
    s.extend_from_slice(payload);
    s
}

fn tcp(src_port: u16, dst_port: u16, flags: u8, payload: &[u8]) -> Vec<u8> {
    let mut s = Vec::new();
    s.extend_from_slice(&be16(src_port));
    s.extend_from_slice(&be16(dst_port));
    s.extend_from_slice(&be32(0x01020304));
    s.extend_from_slice(&be32(0));
    s.push(0x50);
    s.push(flags);
    s.extend_from_slice(&be16(0xFFFF));
    s.extend_from_slice(&be16(0));
    s.extend_from_slice(&be16(0));
    s.extend_from_slice(payload);
    s
}

/// A TCP frame whose checksum validates.
fn tcp_frame(src: u32, src_port: u16, dst: u32, dst_port: u16, payload: &[u8]) -> Vec<u8> {
    let mut f = frame(6, src, dst, &tcp(src_port, dst_port, 0x02, payload));
    let end = f.len();
    let pseudo = pseudo_header(&f, 6, 34, end);
    let checksum = !ones_sum(&[&pseudo, &f[34..end]]);
    f[50..52].copy_from_slice(&be16(checksum));
    f
}

fn wire_name(dotted: &str) -> Vec<u8> {
    let mut name = Vec::new();
    for label in dotted.split('.') {
        name.push(label.len() as u8);
        name.extend_from_slice(label.as_bytes());
    }
    name.push(0);
    name
}

fn dns_header(id: u16, flags: u16, qd: u16, an: u16, ns: u16, ar: u16) -> Vec<u8> {
    let mut m = Vec::new();
    for v in [id, flags, qd, an, ns, ar] {
        m.extend_from_slice(&be16(v));
    }
    m
}

fn dns_message(id: u16, flags: u16, name: &[u8], record_type: u16, class: u16) -> Vec<u8> {
    let mut m = dns_header(id, flags, 1, 0, 0, 0);
    m.extend_from_slice(name);
    m.extend_from_slice(&be16(record_type));
    m.extend_from_slice(&be16(class));
    m
}

fn query_frame(dotted: &str) -> Vec<u8> {
    let message = dns_message(0xBEEF, 0x0100, &wire_name(dotted), 1, 1);
    frame(17, REQUESTER, NAMESERVER, &udp(4000, 53, &message))
}

fn dns_frame(message: &[u8]) -> Vec<u8> {
    frame(17, REQUESTER, NAMESERVER, &udp(4000, 53, message))
}

fn registry_with(dotted: &str, ip: u32) -> ServiceRegistry {
    let mut registry = ServiceRegistry::new();
    let query = DnsQuery { name: wire_name(dotted), record_type: 1, class: 1 };
    assert_eq!(registry.insert(query, DnsRecordA { ip }), Ok(()));
    registry
}

fn config() -> DnsResolver {
    DnsResolver::new(30, 80, BACKEND)
}

/// The answer that is expected for `query_frame(dotted)`, built here byte
/// by byte.
fn expected_answer(dotted: &str, address: u32, ttl: u32) -> Vec<u8> {
    let mut message = dns_header(0xBEEF, 0x8100, 1, 1, 0, 0);
    message.extend_from_slice(&wire_name(dotted));
    message.extend_from_slice(&be16(1));
    message.extend_from_slice(&be16(1));
    message.extend_from_slice(&[0xC0, 0x0C, 0x00, 0x01, 0x00, 0x01]);
    message.extend_from_slice(&be32(ttl));
    message.extend_from_slice(&be16(4));
    message.extend_from_slice(&be32(address));
    let mut f = frame(17, NAMESERVER, REQUESTER, &udp(53, 4000, &message));
    f[0..6].copy_from_slice(&MAC_A);
    f[6..12].copy_from_slice(&MAC_B);
    let end = f.len();
    let pseudo = pseudo_header(&f, 17, 34, end);
    let mut checksum = !ones_sum(&[&pseudo, &f[34..end]]);
    if checksum == 0 {
        checksum = 0xFFFF;
    }
    f[40..42].copy_from_slice(&be16(checksum));
    f
}

// ---------------------------------------------------------------- loading

#[test]
fn load_refuses_a_frame_without_an_ethernet_header() {
    assert_eq!(Context::load(&[]).err(), Some(LoadError::Truncated));
    assert_eq!(Context::load(&[0u8; 13]).err(), Some(LoadError::Truncated));
}

#[test]
fn load_refuses_what_is_not_ipv4() {
    let mut f = query_frame("svc.internal");
    f[12] = 0x86;
    f[13] = 0xDD;
    assert_eq!(Context::load(&f).err(), Some(LoadError::UnsupportedLink));
    let short_arp = [0u8, 0, 0, 0, 0, 0, 0, 0, 0, 0, 0, 0, 0x08, 0x06];
    assert_eq!(Context::load(&short_arp).err(), Some(LoadError::UnsupportedLink));
}

#[test]
fn load_refuses_a_frame_that_ends_inside_the_ip_header() {
    let f = query_frame("svc.internal");
    assert_eq!(Context::load(&f[..14]).err(), Some(LoadError::Truncated));
    assert_eq!(Context::load(&f[..33]).err(), Some(LoadError::Truncated));
}

#[test]
fn load_refuses_a_bad_ip_header() {
    let mut f = query_frame("svc.internal");
    f[14] = 0x65;
    assert_eq!(Context::load(&f).err(), Some(LoadError::UnsupportedNetwork));
    let mut f = query_frame("svc.internal");
    f[14] = 0x44;
    assert_eq!(Context::load(&f).err(), Some(LoadError::UnsupportedNetwork));
    let mut f = query_frame("svc.internal");
    f[16] = 0;
    f[17] = 19;
    assert_eq!(Context::load(&f).err(), Some(LoadError::UnsupportedNetwork));
}

#[test]
fn load_refuses_a_frame_shorter_than_its_datagram() {
    let f = query_frame("svc.internal");
    let cut = f.len() - 1;
    assert_eq!(Context::load(&f[..cut]).err(), Some(LoadError::Truncated));
    let mut f = frame_with_options(6, 1, 2, &[1, 1, 1, 1], &tcp(1, 2, 0, &[]), &[]);
    // header of 24 bytes announced, total length of 30: no room for TCP
    f[16] = 0;
    f[17] = 30;
    assert_eq!(Context::load(&f).err(), Some(LoadError::Truncated));
}

#[test]
fn load_refuses_other_transports() {
    let f = frame(1, REQUESTER, NAMESERVER, &[8, 0, 0, 0, 0, 0, 0, 0]);
    assert_eq!(Context::load(&f).err(), Some(LoadError::UnsupportedTransport));
    let f = frame(47, REQUESTER, NAMESERVER, &[0u8; 40]);
    assert_eq!(Context::load(&f).err(), Some(LoadError::UnsupportedTransport));
}

#[test]
fn load_refuses_a_transport_header_that_is_cut_short() {
    let f = frame(6, REQUESTER, SERVICE, &[0u8; 19]);
    assert_eq!(Context::load(&f).err(), Some(LoadError::Truncated));
    let f = frame(17, REQUESTER, NAMESERVER, &[0u8; 7]);
    assert_eq!(Context::load(&f).err(), Some(LoadError::Truncated));
}

#[test]
fn load_classifies_tcp() {
    let f = tcp_frame(REQUESTER, 51000, SERVICE, 80, b"hello");
    let ctx = Context::load(&f).unwrap();
    assert_eq!(ctx.kind(), Kind::TCP);
    assert_eq!(ctx.layout(), Layout { kind: Kind::TCP, l4: 34, end: f.len() });
    assert_eq!(ctx.len(), f.len());
    assert_eq!(ctx.bytes(), &f);
    assert_eq!(classify_frame(&f), Ok(Layout { kind: Kind::TCP, l4: 34, end: f.len() }));
}

#[test]
fn load_classifies_dns_by_either_port() {
    let f = query_frame("svc.internal");
    let ctx = Context::load(&f).unwrap();
    assert_eq!(ctx.kind(), Kind::DNS);
    assert_eq!(ctx.layout(), Layout { kind: Kind::DNS, l4: 34, end: f.len() });
    let message = dns_message(1, 0x8180, &wire_name("a.b"), 1, 1);
    let f = frame(17, NAMESERVER, REQUESTER, &udp(53, 4000, &message));
    assert_eq!(Context::load(&f).unwrap().kind(), Kind::DNS);
}

#[test]
fn load_classifies_other_udp_as_other() {
    let message = dns_message(1, 0x0100, &wire_name("a.b"), 1, 1);
    let f = frame(17, REQUESTER, NAMESERVER, &udp(4000, 5353, &message));
    assert_eq!(Context::load(&f).unwrap().kind(), Kind::Other);
    // the DNS port, but no room for a DNS header
    let f = frame(17, REQUESTER, NAMESERVER, &udp(4000, 53, &[0u8; 11]));
    assert_eq!(Context::load(&f).unwrap().kind(), Kind::Other);
    // the DNS port, but a UDP length that disagrees with the IP header
    let mut f = query_frame("svc.internal");
    f[38] = 0;
    f[39] = 20;
    assert_eq!(Context::load(&f).unwrap().kind(), Kind::Other);
}

#[test]
fn load_finds_the_transport_header_behind_ip_options() {
    let message = dns_message(1, 0x0100, &wire_name("a.b"), 1, 1);
    let f = frame_with_options(
        17,
        REQUESTER,
        NAMESERVER,
        &[1, 1, 1, 1, 1, 1, 1, 0],
        &udp(4000, 53, &message),
        &[],
    );
    let ctx = Context::load(&f).unwrap();
    assert_eq!(ctx.layout(), Layout { kind: Kind::DNS, l4: 42, end: f.len() });
    assert_eq!(ctx.src_port(), Ok(4000));
    assert_eq!(ctx.dst_port(), Ok(53));
}

#[test]
fn load_leaves_link_padding_out_of_the_datagram() {
    let f = frame_with_options(6, REQUESTER, SERVICE, &[], &tcp(1, 2, 0, &[]), &[0u8; 6]);
    let ctx = Context::load(&f).unwrap();
    assert_eq!(ctx.layout(), Layout { kind: Kind::TCP, l4: 34, end: 54 });
    assert_eq!(ctx.len(), 60);
    assert_eq!(ctx.read_u8(53), Ok(0));
    assert_eq!(ctx.read_u8(54), Err(BoundsError { offset: 54, width: 1, len: 54 }));
    assert_eq!(ctx.read_u16(53), Err(BoundsError { offset: 53, width: 2, len: 54 }));
    assert_eq!(ctx.read_u32(51), Err(BoundsError { offset: 51, width: 4, len: 54 }));
}

// -------------------------------------------------------------- accessors

#[test]
fn accessors_read_addresses_and_ports() {
    let f = tcp_frame(REQUESTER, 51000, SERVICE, 80, b"");
    let ctx = Context::load(&f).unwrap();
    assert_eq!(ctx.src_ip(), Ok(REQUESTER));
    assert_eq!(ctx.dst_ip(), Ok(SERVICE));
    assert_eq!(ctx.src_port(), Ok(51000));
    assert_eq!(ctx.dst_port(), Ok(80));
    assert_eq!(ctx.read_u16(12), Ok(0x0800));
    assert_eq!(ctx.read_u32(26), Ok(REQUESTER));
    assert_eq!(ctx.read_u8(23), Ok(6));
}

#[test]
fn accessors_read_the_dns_header() {
    let f = query_frame("svc.internal");
    let ctx = Context::load(&f).unwrap();
    assert_eq!(ctx.dns_flags(), Ok(0x0100));
    assert_eq!(ctx.dns_question_count(), Ok(1));
    assert_eq!(ctx.dns_answer_count(), Ok(0));
}

#[test]
fn dns_accessors_are_refused_where_the_frame_is_too_short() {
    let f = frame(17, REQUESTER, NAMESERVER, &udp(4000, 5353, &[1, 2, 3]));
    let ctx = Context::load(&f).unwrap();
    assert_eq!(ctx.dns_flags(), Err(BoundsError { offset: 44, width: 2, len: 45 }));
    assert_eq!(ctx.dns_question_count(), Err(BoundsError { offset: 46, width: 2, len: 45 }));
    assert_eq!(ctx.dns_answer_count(), Err(BoundsError { offset: 48, width: 2, len: 45 }));
}

// ---------------------------------------------------------------- parsing

#[test]
fn question_is_read_and_normalized() {
    let message = dns_message(7, 0x0100, &wire_name("SvC.Internal"), 1, 1);
    let ctx = Context::load(&dns_frame(&message)).unwrap();
    let parsed = ctx.question().unwrap();
    assert_eq!(
        parsed.query,
        DnsQuery { name: wire_name("svc.internal"), record_type: 1, class: 1 }
    );
    assert_eq!(parsed.end, 34 + 8 + 12 + 14 + 4);
}

#[test]
fn question_keeps_what_is_no_capital_letter() {
    let mut name = vec![6, b'@', b'A', b'Z', b'[', b'`', b'{', 0];
    let message = dns_message(7, 0x0100, &name, 28, 3);
    let ctx = Context::load(&dns_frame(&message)).unwrap();
    let parsed = ctx.question().unwrap();
    name[2] = b'a';
    name[3] = b'z';
    assert_eq!(parsed.query, DnsQuery { name, record_type: 28, class: 3 });
}

#[test]
fn question_of_the_root_name() {
    let message = dns_message(7, 0x0000, &[0], 2, 1);
    let ctx = Context::load(&dns_frame(&message)).unwrap();
    let parsed = ctx.question().unwrap();
    assert_eq!(parsed.query, DnsQuery { name: vec![0], record_type: 2, class: 1 });
    assert_eq!(parsed.end, 34 + 8 + 12 + 1 + 4);
}

#[test]
fn question_with_the_longest_name() {
    // three labels of 63 and one of 61: 64 + 64 + 64 + 62 + 1 = 255 bytes
    let mut name = Vec::new();
    for len in [63usize, 63, 63, 61] {
        name.push(len as u8);
        name.extend(std::iter::repeat(b'x').take(len));
    }
    name.push(0);
    assert_eq!(name.len(), 255);
    let message = dns_message(7, 0x0100, &name, 1, 1);
    let ctx = Context::load(&dns_frame(&message)).unwrap();
    let parsed = ctx.question().unwrap();
    assert_eq!(parsed.query.name, name);
    assert_eq!(parsed.end, 34 + 8 + 12 + 255 + 4);
}

#[test]
fn question_of_a_frame_that_is_not_dns() {
    let ctx = Context::load(&tcp_frame(REQUESTER, 51000, SERVICE, 80, b"")).unwrap();
    assert_eq!(ctx.question().err(), Some(ParseError::NotDns));
    let f = frame(17, REQUESTER, NAMESERVER, &udp(4000, 5353, &[0u8; 40]));
    let ctx = Context::load(&f).unwrap();
    assert_eq!(ctx.question().err(), Some(ParseError::NotDns));
}

#[test]
fn question_of_a_response_or_another_operation() {
    let message = dns_message(7, 0x8180, &wire_name("svc.internal"), 1, 1);
    let ctx = Context::load(&dns_frame(&message)).unwrap();
    assert_eq!(ctx.question().err(), Some(ParseError::NotQuery));
    // opcode 2 (status)
    let message = dns_message(7, 0x1000, &wire_name("svc.internal"), 1, 1);
    let ctx = Context::load(&dns_frame(&message)).unwrap();
    assert_eq!(ctx.question().err(), Some(ParseError::NotQuery));
    // opcode 1 (inverse query)
    let message = dns_message(7, 0x0800, &wire_name("svc.internal"), 1, 1);
    let ctx = Context::load(&dns_frame(&message)).unwrap();
    assert_eq!(ctx.question().err(), Some(ParseError::NotQuery));
}

#[test]
fn question_with_other_section_counts() {
    for (qd, an, ns) in [(0u16, 0u16, 0u16), (2, 0, 0), (1, 1, 0), (1, 0, 1)] {
        let mut message = dns_header(7, 0x0100, qd, an, ns, 0);
        message.extend_from_slice(&wire_name("svc.internal"));
        message.extend_from_slice(&[0, 1, 0, 1]);
        let ctx = Context::load(&dns_frame(&message)).unwrap();
        assert_eq!(ctx.question().err(), Some(ParseError::SectionCount));
    }
}

#[test]
fn question_that_is_cut_short() {
    // no question at all
    let ctx = Context::load(&dns_frame(&dns_header(7, 0x0100, 1, 0, 0, 0))).unwrap();
    assert_eq!(ctx.question().err(), Some(ParseError::Truncated));
    // the name has no end
    let mut message = dns_header(7, 0x0100, 1, 0, 0, 0);
    message.extend_from_slice(&[3, b's', b'v', b'c']);
    let ctx = Context::load(&dns_frame(&message)).unwrap();
    assert_eq!(ctx.question().err(), Some(ParseError::Truncated));
    // a label runs over the end
    let mut message = dns_header(7, 0x0100, 1, 0, 0, 0);
    message.extend_from_slice(&[5, b's', b'v', b'c']);
    let ctx = Context::load(&dns_frame(&message)).unwrap();
    assert_eq!(ctx.question().err(), Some(ParseError::Truncated));
    // type and class are missing
    let mut message = dns_header(7, 0x0100, 1, 0, 0, 0);
    message.extend_from_slice(&wire_name("svc.internal"));
    message.extend_from_slice(&[0, 1, 0]);
    let ctx = Context::load(&dns_frame(&message)).unwrap();
    assert_eq!(ctx.question().err(), Some(ParseError::Truncated));
}

#[test]
fn question_does_not_read_link_padding() {
    // the name would end in the padding
    let mut message = dns_header(7, 0x0100, 1, 0, 0, 0);
    message.extend_from_slice(&[3, b's', b'v', b'c']);
    let f = frame_with_options(
        17,
        REQUESTER,
        NAMESERVER,
        &[],
        &udp(4000, 53, &message),
        &[0, 0, 1, 0, 1],
    );
    let ctx = Context::load(&f).unwrap();
    assert_eq!(ctx.kind(), Kind::DNS);
    assert_eq!(ctx.question().err(), Some(ParseError::Truncated));
}

#[test]
fn question_with_a_compressed_name() {
    let message = dns_message(7, 0x0100, &[3, b's', b'v', b'c', 0xC0, 0x0C], 1, 1);
    let ctx = Context::load(&dns_frame(&message)).unwrap();
    assert_eq!(ctx.question().err(), Some(ParseError::Compression));
    let message = dns_message(7, 0x0100, &[0xFF, 0x0C], 1, 1);
    let ctx = Context::load(&dns_frame(&message)).unwrap();
    assert_eq!(ctx.question().err(), Some(ParseError::Compression));
}

#[test]
fn question_with_a_label_that_is_too_long() {
    let mut name = vec![64u8];
    name.extend(std::iter::repeat(b'x').take(64));
    name.push(0);
    let message = dns_message(7, 0x0100, &name, 1, 1);
    let ctx = Context::load(&dns_frame(&message)).unwrap();
    assert_eq!(ctx.question().err(), Some(ParseError::LabelLength));
    let message = dns_message(7, 0x0100, &[0xBF, 1, 2], 1, 1);
    let ctx = Context::load(&dns_frame(&message)).unwrap();
    assert_eq!(ctx.question().err(), Some(ParseError::LabelLength));
}

#[test]
fn question_with_a_name_that_is_too_long() {
    // three labels of 63 and one of 62: 256 bytes
    let mut name = Vec::new();
    for len in [63usize, 63, 63, 62] {
        name.push(len as u8);
        name.extend(std::iter::repeat(b'x').take(len));
    }
    name.push(0);
    assert_eq!(name.len(), 256);
    let message = dns_message(7, 0x0100, &name, 1, 1);
    let ctx = Context::load(&dns_frame(&message)).unwrap();
    assert_eq!(ctx.question().err(), Some(ParseError::NameLength));
}

// ---------------------------------------------------------------- resolver

#[test]
fn scenario_query_is_answered_and_connection_translated() {
    let registry = registry_with("svc.internal", SERVICE);
    let mut table = NatTable::new();
    let mut packet = query_frame("svc.internal");
    let query = packet.clone();

    let disposition = resolver(&mut packet, &config(), &registry, &mut table);
    assert_eq!(disposition, Disposition::Redirect);
    assert_eq!(packet, expected_answer("svc.internal", SERVICE, 30));

    // the answer goes from the name server back to 192.168.1.10:4000
    assert_eq!(at32(&packet, 26), NAMESERVER);
    assert_eq!(at32(&packet, 30), REQUESTER);
    assert_eq!(at16(&packet, 34), 53);
    assert_eq!(at16(&packet, 36), 4000);
    assert_eq!(&packet[0..6], &query[6..12]);
    assert_eq!(&packet[6..12], &query[0..6]);
    // response flag, counts, question and identifier
    assert_eq!(at16(&packet, 42), 0xBEEF);
    assert_eq!(at16(&packet, 44) & 0x8000, 0x8000);
    assert_eq!(at16(&packet, 46), 1);
    assert_eq!(at16(&packet, 48), 1);
    assert_eq!(&packet[54..72], &query[54..72]);
    // the answer record carries 10.0.0.5
    assert_eq!(packet.len(), query.len() + 16);
    assert_eq!(&packet[84..88], &[10, 0, 0, 5]);
    assert_eq!(at32(&packet, 78), 30);
    // lengths and checksums
    assert_eq!(at16(&packet, 16) as usize, packet.len() - 14);
    assert_eq!(at16(&packet, 38) as usize, packet.len() - 34);
    assert!(ip_checksum_validates(&packet));
    assert!(l4_checksum_validates(&packet));

    // the two entries are there
    assert_eq!(table.len(), 2);
    let forward =
        NatKey { protocol: 6, src_ip: REQUESTER, src_port: 0, dst_ip: SERVICE, dst_port: 80 };
    let reverse = NatKey {
        protocol: 6,
        src_ip: BACKEND.ip,
        src_port: BACKEND.port,
        dst_ip: REQUESTER,
        dst_port: 0,
    };
    assert_eq!(table.get(&forward), Some(BACKEND));
    assert_eq!(table.get(&reverse), Some(NatOrigin { ip: SERVICE, port: 80 }));

    // a SYN from 192.168.1.10 to 10.0.0.5:80 goes to the backend
    let mut syn = tcp_frame(REQUESTER, 51000, SERVICE, 80, b"");
    assert_eq!(egress_forwarder(&mut syn, &table), Disposition::Pass);
    assert_eq!(at32(&syn, 26), REQUESTER);
    assert_eq!(at16(&syn, 34), 51000);
    assert_eq!(at32(&syn, 30), BACKEND.ip);
    assert_eq!(at16(&syn, 36), BACKEND.port);
    assert_eq!(syn, tcp_frame(REQUESTER, 51000, BACKEND.ip, BACKEND.port, b""));
    assert!(ip_checksum_validates(&syn));
    assert!(l4_checksum_validates(&syn));

    // and its reply shows 10.0.0.5:80 as the peer
    let mut reply = tcp_frame(BACKEND.ip, BACKEND.port, REQUESTER, 51000, b"");
    assert_eq!(ingress_forwarder(&mut reply, &table), Disposition::Pass);
    assert_eq!(at32(&reply, 26), SERVICE);
    assert_eq!(at16(&reply, 34), 80);
    assert_eq!(at32(&reply, 30), REQUESTER);
    assert_eq!(at16(&reply, 36), 51000);
    assert_eq!(reply, tcp_frame(SERVICE, 80, REQUESTER, 51000, b""));
    assert!(ip_checksum_validates(&reply));
    assert!(l4_checksum_validates(&reply));
}

#[test]
fn query_in_capital_letters_is_answered() {
    let registry = registry_with("svc.internal", SERVICE);
    let mut table = NatTable::new();
    let mut packet = query_frame("SVC.Internal");
    let query = packet.clone();
    assert_eq!(resolver(&mut packet, &config(), &registry, &mut table), Disposition::Redirect);
    // the question goes back as it came
    assert_eq!(&packet[54..72], &query[54..72]);
    assert_eq!(&packet[84..88], &[10, 0, 0, 5]);
    assert!(l4_checksum_validates(&packet));
}

#[test]
fn query_for_an_unregistered_name_passes_unchanged() {
    let registry = registry_with("svc.internal", SERVICE);
    let mut table = NatTable::new();
    let mut packet = query_frame("other.internal");
    let before = packet.clone();
    assert_eq!(
        try_resolve_dns(&mut packet, &config(), &registry, &mut table),
        Ok(Disposition::Pass)
    );
    assert_eq!(packet, before);
    assert_eq!(table.len(), 0);
    assert_eq!(resolver(&mut packet, &config(), &registry, &mut table), Disposition::Pass);
    assert_eq!(packet, before);
}

#[test]
fn query_for_another_type_or_class_passes_unchanged() {
    let registry = registry_with("svc.internal", SERVICE);
    let mut table = NatTable::new();
    for (record_type, class) in [(28u16, 1u16), (1, 3), (255, 1)] {
        let message = dns_message(1, 0x0100, &wire_name("svc.internal"), record_type, class);
        let mut packet = dns_frame(&message);
        let before = packet.clone();
        assert_eq!(resolver(&mut packet, &config(), &registry, &mut table), Disposition::Pass);
        assert_eq!(packet, before);
        assert_eq!(table.len(), 0);
    }
}

#[test]
fn malformed_dns_passes_unchanged_and_says_why() {
    let registry = registry_with("svc.internal", SERVICE);
    let mut table = NatTable::new();
    let message = dns_message(7, 0x0100, &[3, b's', b'v', b'c', 0xC0, 0x0C], 1, 1);
    let mut packet = dns_frame(&message);
    let before = packet.clone();
    assert_eq!(
        try_resolve_dns(&mut packet, &config(), &registry, &mut table),
        Err(ParseError::Compression)
    );
    assert_eq!(packet, before);
    assert_eq!(resolver(&mut packet, &config(), &registry, &mut table), Disposition::Pass);
    assert_eq!(packet, before);
    assert_eq!(table.len(), 0);
}

#[test]
fn frames_that_are_not_dns_pass_the_resolver_unchanged() {
    let registry = registry_with("svc.internal", SERVICE);
    let mut table = NatTable::new();
    let frames = vec![
        tcp_frame(REQUESTER, 51000, SERVICE, 80, b"x"),
        frame(17, REQUESTER, NAMESERVER, &udp(4000, 5353, &[0u8; 30])),
        frame(1, REQUESTER, NAMESERVER, &[0u8; 8]),
        vec![1, 2, 3],
        vec![],
    ];
    for f in frames {
        let mut packet = f.clone();
        assert_eq!(
            try_resolve_dns(&mut packet, &config(), &registry, &mut table),
            Ok(Disposition::Pass)
        );
        assert_eq!(packet, f);
        assert_eq!(table.len(), 0);
    }
}

#[test]
fn answer_is_not_answered_again() {
    let registry = registry_with("svc.internal", SERVICE);
    let mut table = NatTable::new();
    let mut packet = query_frame("svc.internal");
    assert_eq!(resolver(&mut packet, &config(), &registry, &mut table), Disposition::Redirect);
    let answer = packet.clone();
    assert_eq!(
        try_resolve_dns(&mut packet, &config(), &registry, &mut table),
        Err(ParseError::NotQuery)
    );
    assert_eq!(resolver(&mut packet, &config(), &registry, &mut table), Disposition::Pass);
    assert_eq!(packet, answer);
    assert_eq!(egress_forwarder(&mut packet, &table), Disposition::Pass);
    assert_eq!(packet, answer);
    assert_eq!(ingress_forwarder(&mut packet, &table), Disposition::Pass);
    assert_eq!(packet, answer);
    assert_eq!(table.len(), 2);
}

#[test]
fn additional_records_and_padding_are_cut_off_the_answer() {
    let registry = registry_with("svc.internal", SERVICE);
    let mut table = NatTable::new();
    let mut message = dns_header(0xBEEF, 0x0100, 1, 0, 0, 1);
    message.extend_from_slice(&wire_name("svc.internal"));
    message.extend_from_slice(&[0, 1, 0, 1]);
    // an OPT record
    message.extend_from_slice(&[0, 0, 41, 0x10, 0, 0, 0, 0, 0, 0, 0]);
    let mut packet = frame_with_options(
        17,
        REQUESTER,
        NAMESERVER,
        &[],
        &udp(4000, 53, &message),
        &[0xEE; 4],
    );
    assert_eq!(resolver(&mut packet, &config(), &registry, &mut table), Disposition::Redirect);
    assert_eq!(packet, expected_answer("svc.internal", SERVICE, 30));
    assert_eq!(at16(&packet, 52), 0);
}

#[test]
fn answer_is_delivered_also_where_the_table_is_full() {
    let registry = registry_with("svc.internal", SERVICE);
    let mut table = NatTable::new();
    for n in 0..1024u32 {
        let key = NatKey { protocol: 6, src_ip: n, src_port: 9, dst_ip: 1, dst_port: 1 };
        assert_eq!(table.insert(key, NatOrigin { ip: n, port: 1 }), Ok(()));
    }
    let mut packet = query_frame("svc.internal");
    assert_eq!(resolver(&mut packet, &config(), &registry, &mut table), Disposition::Redirect);
    assert_eq!(packet, expected_answer("svc.internal", SERVICE, 30));
    assert_eq!(table.len(), 1024);
    for n in 0..1024u32 {
        let key = NatKey { protocol: 6, src_ip: n, src_port: 9, dst_ip: 1, dst_port: 1 };
        assert_eq!(table.get(&key), Some(NatOrigin { ip: n, port: 1 }));
    }
    // and the connection is not translated
    let mut syn = tcp_frame(REQUESTER, 51000, SERVICE, 80, b"");
    let before = syn.clone();
    assert_eq!(egress_forwarder(&mut syn, &table), Disposition::Pass);
    assert_eq!(syn, before);
}

#[test]
fn handle_works_on_the_context_and_leaves_the_frame() {
    let registry = registry_with("svc.internal", SERVICE);
    let mut table = NatTable::new();
    let frame = query_frame("svc.internal");
    let mut ctx = Context::load(&frame).unwrap();
    assert_eq!(config().handle(&mut ctx, &registry, &mut table), Ok(Disposition::Redirect));
    assert_eq!(frame, query_frame("svc.internal"));
    assert_eq!(ctx.layout(), Layout { kind: Kind::DNS, l4: 34, end: frame.len() + 16 });
    assert_eq!(ctx.dns_flags(), Ok(0x8100));
    assert_eq!(ctx.dns_answer_count(), Ok(1));
    assert_eq!(ctx.read_u32(frame.len() + 12), Ok(SERVICE));
    assert_eq!(ctx.into_bytes(), expected_answer("svc.internal", SERVICE, 30));
}

#[test]
fn handle_refuses_a_frame_that_is_not_dns() {
    let registry = registry_with("svc.internal", SERVICE);
    let mut table = NatTable::new();
    let frame = tcp_frame(REQUESTER, 51000, SERVICE, 80, b"");
    let mut ctx = Context::load(&frame).unwrap();
    assert_eq!(config().handle(&mut ctx, &registry, &mut table), Err(ParseError::NotDns));
    assert_eq!(ctx.bytes(), &frame);
    assert_eq!(table.len(), 0);
}

#[test]
fn synthesize_refuses_a_place_where_no_question_ends() {
    let frame = query_frame("svc.internal");
    let record = DnsRecordA { ip: SERVICE };
    for end in [0usize, 58, frame.len() + 1, usize::MAX] {
        let mut ctx = Context::load(&frame).unwrap();
        assert!(config().synthesize(&mut ctx, end, record).is_err());
        assert_eq!(ctx.bytes(), &frame);
    }
    let mut ctx = Context::load(&frame).unwrap();
    assert_eq!(
        ctx.answer(58, SERVICE, 30),
        Err(BoundsError { offset: 58, width: 16, len: frame.len() })
    );
    // a response is not answered
    let mut ctx = Context::load(&expected_answer("svc.internal", SERVICE, 30)).unwrap();
    assert!(config().synthesize(&mut ctx, 72, record).is_err());
    // nor is a frame that is not DNS
    let tcp = tcp_frame(REQUESTER, 51000, SERVICE, 80, &[0u8; 40]);
    let mut ctx = Context::load(&tcp).unwrap();
    assert!(config().synthesize(&mut ctx, 72, record).is_err());
    assert_eq!(ctx.bytes(), &tcp);
}

#[test]
fn synthesize_answers_at_the_place_that_parsing_gave() {
    let frame = query_frame("svc.internal");
    let mut ctx = Context::load(&frame).unwrap();
    let parsed = ctx.question().unwrap();
    assert_eq!(parsed.end, 72);
    assert_eq!(config().synthesize(&mut ctx, parsed.end, DnsRecordA { ip: SERVICE }), Ok(()));
    assert_eq!(ctx.into_bytes(), expected_answer("svc.internal", SERVICE, 30));
}

#[test]
fn udp_checksum_of_zero_is_sent_as_all_ones() {
    // try identifiers until the computed checksum would be zero
    let registry = registry_with("svc.internal", SERVICE);
    let mut seen = false;
    for id in 0..=0xFFFFu16 {
        let message = dns_message(id, 0x0100, &wire_name("svc.internal"), 1, 1);
        let mut packet = dns_frame(&message);
        let mut table = NatTable::new();
        assert_eq!(resolver(&mut packet, &config(), &registry, &mut table), Disposition::Redirect);
        assert_ne!(at16(&packet, 40), 0);
        let end = packet.len();
        let mut cleared = packet.clone();
        cleared[40] = 0;
        cleared[41] = 0;
        let pseudo = pseudo_header(&cleared, 17, 34, end);
        if ones_sum(&[&pseudo, &cleared[34..end]]) == 0xFFFF {
            assert_eq!(at16(&packet, 40), 0xFFFF);
            seen = true;
            break;
        }
    }
    assert!(seen);
}

// --------------------------------------------------------------- forwarder

#[test]
fn tcp_without_an_entry_passes_unchanged() {
    let table = NatTable::new();
    let mut packet = tcp_frame(REQUESTER, 51000, SERVICE, 80, b"payload");
    let before = packet.clone();
    assert_eq!(try_forward_egress(&mut packet, &table), Ok(Disposition::Pass));
    assert_eq!(packet, before);
    assert_eq!(try_forward_ingress(&mut packet, &table), Ok(Disposition::Pass));
    assert_eq!(packet, before);
}

#[test]
fn tcp_with_a_wrong_checksum_and_no_entry_passes_unchanged() {
    let table = NatTable::new();
    let mut packet = tcp_frame(REQUESTER, 51000, SERVICE, 80, b"payload");
    packet[50] ^= 0xFF;
    packet[24] ^= 0xFF;
    let before = packet.clone();
    assert_eq!(egress_forwarder(&mut packet, &table), Disposition::Pass);
    assert_eq!(packet, before);
    assert_eq!(ingress_forwarder(&mut packet, &table), Disposition::Pass);
    assert_eq!(packet, before);
}

#[test]
fn tcp_to_another_port_or_from_another_host_is_not_translated() {
    let mut table = NatTable::new();
    assert_eq!(config().provision(&mut table, REQUESTER, DnsRecordA { ip: SERVICE }), Ok(()));
    let frames = vec![
        tcp_frame(REQUESTER, 51000, SERVICE, 443, b""),
        tcp_frame(REQUESTER + 1, 51000, SERVICE, 80, b""),
        tcp_frame(REQUESTER, 51000, SERVICE + 1, 80, b""),
    ];
    for f in frames {
        let mut packet = f.clone();
        assert_eq!(egress_forwarder(&mut packet, &table), Disposition::Pass);
        assert_eq!(packet, f);
    }
    let frames = vec![
        tcp_frame(BACKEND.ip, BACKEND.port + 1, REQUESTER, 51000, b""),
        tcp_frame(BACKEND.ip + 1, BACKEND.port, REQUESTER, 51000, b""),
        tcp_frame(BACKEND.ip, BACKEND.port, REQUESTER + 1, 51000, b""),
    ];
    for f in frames {
        let mut packet = f.clone();
        assert_eq!(ingress_forwarder(&mut packet, &table), Disposition::Pass);
        assert_eq!(packet, f);
    }
}

#[test]
fn frames_that_are_not_tcp_pass_the_forwarders_unchanged() {
    let mut table = NatTable::new();
    assert_eq!(config().provision(&mut table, REQUESTER, DnsRecordA { ip: SERVICE }), Ok(()));
    let frames = vec![
        query_frame("svc.internal"),
        frame(17, REQUESTER, SERVICE, &udp(51000, 80, &[0u8; 30])),
        frame(1, REQUESTER, SERVICE, &[0u8; 8]),
        vec![0u8; 10],
    ];
    for f in frames {
        let mut packet = f.clone();
        assert_eq!(egress_forwarder(&mut packet, &table), Disposition::Pass);
        assert_eq!(packet, f);
        assert_eq!(ingress_forwarder(&mut packet, &table), Disposition::Pass);
        assert_eq!(packet, f);
    }
}

#[test]
fn translation_keeps_payload_and_padding() {
    let mut table = NatTable::new();
    assert_eq!(config().provision(&mut table, REQUESTER, DnsRecordA { ip: SERVICE }), Ok(()));
    let mut packet = tcp_frame(REQUESTER, 51000, SERVICE, 80, b"GET / HTTP/1.1\r\n\r\n");
    packet.extend_from_slice(&[0xEE; 3]);
    let before = packet.clone();
    assert_eq!(egress_forwarder(&mut packet, &table), Disposition::Pass);
    let mut expected = tcp_frame(REQUESTER, 51000, BACKEND.ip, BACKEND.port, b"GET / HTTP/1.1\r\n\r\n");
    expected.extend_from_slice(&[0xEE; 3]);
    assert_eq!(packet, expected);
    assert_eq!(packet.len(), before.len());
    assert_eq!(&packet[54..], &before[54..]);
}

#[test]
fn translation_with_a_payload_of_odd_length() {
    let mut table = NatTable::new();
    assert_eq!(config().provision(&mut table, REQUESTER, DnsRecordA { ip: SERVICE }), Ok(()));
    let mut packet = tcp_frame(BACKEND.ip, BACKEND.port, REQUESTER, 40000, b"abc");
    assert_eq!(ingress_forwarder(&mut packet, &table), Disposition::Pass);
    assert_eq!(packet, tcp_frame(SERVICE, 80, REQUESTER, 40000, b"abc"));
    assert!(l4_checksum_validates(&packet));
}

#[test]
fn translating_twice_to_the_same_endpoint_is_translating_once() {
    let frame = tcp_frame(REQUESTER, 51000, SERVICE, 80, b"x");
    let mut once = Context::load(&frame).unwrap();
    TrafficForwarder::translate_forward(&mut once, BACKEND);
    let mut twice = Context::load(&frame).unwrap();
    TrafficForwarder::translate_forward(&mut twice, BACKEND);
    TrafficForwarder::translate_forward(&mut twice, BACKEND);
    assert_eq!(once.bytes(), twice.bytes());
    let mut once = Context::load(&frame).unwrap();
    TrafficForwarder::translate_reverse(&mut once, BACKEND);
    let mut twice = Context::load(&frame).unwrap();
    TrafficForwarder::translate_reverse(&mut twice, BACKEND);
    TrafficForwarder::translate_reverse(&mut twice, BACKEND);
    assert_eq!(once.bytes(), twice.bytes());
    assert_eq!(once.into_bytes(), tcp_frame(BACKEND.ip, BACKEND.port, SERVICE, 80, b"x"));
}

#[test]
fn hooks_serve_the_backends_side_as_well() {
    let mut table = NatTable::new();
    assert_eq!(config().provision(&mut table, REQUESTER, DnsRecordA { ip: SERVICE }), Ok(()));
    // the connection comes in and is sent on to the backend
    let mut syn = tcp_frame(REQUESTER, 51000, SERVICE, 80, b"");
    assert_eq!(ingress_forwarder(&mut syn, &table), Disposition::Pass);
    assert_eq!(syn, tcp_frame(REQUESTER, 51000, BACKEND.ip, BACKEND.port, b""));
    // the reply leaves and shows the resolved address as its source
    let mut reply = tcp_frame(BACKEND.ip, BACKEND.port, REQUESTER, 51000, b"");
    assert_eq!(egress_forwarder(&mut reply, &table), Disposition::Pass);
    assert_eq!(reply, tcp_frame(SERVICE, 80, REQUESTER, 51000, b""));
}

#[test]
fn a_frame_is_rewritten_at_most_once_by_a_hook() {
    // a table that holds the forward key and the reverse key of one frame
    let mut table = NatTable::new();
    let frame = tcp_frame(1, 10, 2, 20, b"");
    let forward = NatKey { protocol: 6, src_ip: 1, src_port: 0, dst_ip: 2, dst_port: 20 };
    let reverse = NatKey { protocol: 6, src_ip: 1, src_port: 10, dst_ip: 2, dst_port: 0 };
    assert_eq!(table.insert(forward, NatOrigin { ip: 3, port: 30 }), Ok(()));
    assert_eq!(table.insert(reverse, NatOrigin { ip: 4, port: 40 }), Ok(()));
    let mut out = frame.clone();
    assert_eq!(egress_forwarder(&mut out, &table), Disposition::Pass);
    assert_eq!(out, tcp_frame(1, 10, 3, 30, b""));
    let mut into = frame.clone();
    assert_eq!(ingress_forwarder(&mut into, &table), Disposition::Pass);
    assert_eq!(into, tcp_frame(4, 40, 2, 20, b""));
}

#[test]
fn keys_leave_the_requesters_port_zero() {
    let ctx = Context::load(&tcp_frame(REQUESTER, 51000, SERVICE, 80, b"")).unwrap();
    assert_eq!(
        TrafficForwarder::forward_key(&ctx),
        NatKey { protocol: 6, src_ip: REQUESTER, src_port: 0, dst_ip: SERVICE, dst_port: 80 }
    );
    assert_eq!(
        TrafficForwarder::reverse_key(&ctx),
        NatKey { protocol: 6, src_ip: REQUESTER, src_port: 51000, dst_ip: SERVICE, dst_port: 0 }
    );
}

#[test]
fn handle_egress_and_ingress_on_a_context() {
    let mut table = NatTable::new();
    assert_eq!(config().provision(&mut table, REQUESTER, DnsRecordA { ip: SERVICE }), Ok(()));
    let mut ctx = Context::load(&tcp_frame(REQUESTER, 51000, SERVICE, 80, b"")).unwrap();
    assert_eq!(TrafficForwarder::handle_egress(&mut ctx, &table), Ok(Disposition::Pass));
    assert_eq!(ctx.dst_ip(), Ok(BACKEND.ip));
    assert_eq!(ctx.dst_port(), Ok(BACKEND.port));
    let mut ctx = Context::load(&tcp_frame(BACKEND.ip, BACKEND.port, REQUESTER, 51000, b"")).unwrap();
    assert_eq!(TrafficForwarder::handle_ingress(&mut ctx, &table), Ok(Disposition::Pass));
    assert_eq!(ctx.src_ip(), Ok(SERVICE));
    assert_eq!(ctx.src_port(), Ok(80));
    let query = query_frame("svc.internal");
    let mut ctx = Context::load(&query).unwrap();
    assert_eq!(TrafficForwarder::handle_egress(&mut ctx, &table), Ok(Disposition::Pass));
    assert_eq!(TrafficForwarder::handle_ingress(&mut ctx, &table), Ok(Disposition::Pass));
    assert_eq!(ctx.bytes(), &query);
}

// ---------------------------------------------------------------- mutators

#[test]
fn set_src_and_set_dst_rewrite_and_fix_the_checksums() {
    let mut ctx = Context::load(&tcp_frame(1, 2, 3, 4, b"data")).unwrap();
    ctx.set_src(0x01020304, 1111);
    ctx.set_dst(0x05060708, 2222);
    assert_eq!(ctx.kind(), Kind::TCP);
    assert_eq!(ctx.into_bytes(), tcp_frame(0x01020304, 1111, 0x05060708, 2222, b"data"));
}

#[test]
fn rewriting_repairs_checksums_and_lengths_that_were_off() {
    let mut broken = tcp_frame(1, 2, 3, 4, b"data");
    broken[24] ^= 0x55;
    broken[51] ^= 0x55;
    let mut ctx = Context::load(&broken).unwrap();
    ctx.set_dst(3, 4);
    assert_eq!(ctx.into_bytes(), tcp_frame(1, 2, 3, 4, b"data"));
}

#[test]
fn swap_endpoints_turns_the_frame_around() {
    let mut ctx = Context::load(&tcp_frame(REQUESTER, 51000, SERVICE, 80, b"data")).unwrap();
    ctx.swap_endpoints();
    let mut expected = tcp_frame(SERVICE, 80, REQUESTER, 51000, b"data");
    expected[0..6].copy_from_slice(&MAC_A);
    expected[6..12].copy_from_slice(&MAC_B);
    assert_eq!(ctx.bytes(), &expected);
    ctx.swap_endpoints();
    assert_eq!(ctx.into_bytes(), tcp_frame(REQUESTER, 51000, SERVICE, 80, b"data"));
}

#[test]
fn truncate_cuts_the_datagram_and_fixes_lengths() {
    let mut f = tcp_frame(REQUESTER, 51000, SERVICE, 80, b"0123456789");
    f.extend_from_slice(&[0xEE; 2]);
    let mut ctx = Context::load(&f).unwrap();
    assert_eq!(ctx.truncate(58), Ok(()));
    assert_eq!(ctx.layout(), Layout { kind: Kind::TCP, l4: 34, end: 58 });
    assert_eq!(ctx.len(), 58);
    let mut expected = tcp_frame(REQUESTER, 51000, SERVICE, 80, b"0123");
    // sequence number and the rest of the header are as they were
    expected[38..50].copy_from_slice(&f[38..50]);
    assert_eq!(ctx.bytes(), &expected);
    assert!(ip_checksum_validates(ctx.bytes()));
    assert!(l4_checksum_validates(ctx.bytes()));
}

#[test]
fn truncate_refuses_to_cut_into_the_headers_or_behind_the_end() {
    let f = tcp_frame(REQUESTER, 51000, SERVICE, 80, b"0123456789");
    let mut ctx = Context::load(&f).unwrap();
    assert_eq!(ctx.truncate(53), Err(BoundsError { offset: 53, width: 0, len: 64 }));
    assert_eq!(ctx.truncate(65), Err(BoundsError { offset: 65, width: 0, len: 64 }));
    assert_eq!(ctx.bytes(), &f);
    assert_eq!(ctx.truncate(64), Ok(()));
    assert_eq!(ctx.bytes(), &f);
    assert_eq!(ctx.truncate(54), Ok(()));
    assert_eq!(ctx.into_bytes(), tcp_frame(REQUESTER, 51000, SERVICE, 80, b""));
    let q = query_frame("svc.internal");
    let mut ctx = Context::load(&q).unwrap();
    assert_eq!(ctx.truncate(53), Err(BoundsError { offset: 53, width: 0, len: q.len() }));
    assert_eq!(ctx.truncate(54), Ok(()));
    assert_eq!(ctx.len(), 54);
}

#[test]
fn append_grows_the_datagram_and_fixes_lengths() {
    let mut f = tcp_frame(REQUESTER, 51000, SERVICE, 80, b"0123");
    f.extend_from_slice(&[0xEE; 5]);
    let mut ctx = Context::load(&f).unwrap();
    assert_eq!(ctx.append(b"456789"), Ok(()));
    assert_eq!(ctx.layout(), Layout { kind: Kind::TCP, l4: 34, end: 64 });
    assert_eq!(ctx.into_bytes(), tcp_frame(REQUESTER, 51000, SERVICE, 80, b"0123456789"));
}

#[test]
fn append_refuses_what_the_length_field_cannot_say() {
    let f = tcp_frame(REQUESTER, 51000, SERVICE, 80, b"0123");
    let mut ctx = Context::load(&f).unwrap();
    let too_much = vec![0u8; 65535 - 44 + 1];
    assert_eq!(
        ctx.append(&too_much),
        Err(BoundsError { offset: 58, width: 65492, len: 65549 })
    );
    assert_eq!(ctx.bytes(), &f);
    let just_enough = vec![0u8; 65535 - 44];
    assert_eq!(ctx.append(&just_enough), Ok(()));
    assert_eq!(ctx.len(), 14 + 65535);
    assert_eq!(at16(ctx.bytes(), 16), 65535);
    assert!(ip_checksum_validates(ctx.bytes()));
    assert!(l4_checksum_validates(ctx.bytes()));
}
