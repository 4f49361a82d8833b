//! The keys and values of the two tables.

use vstd::prelude::*;

verus! {

/// A DNS question as a mathematical value: the name in wire format with
/// its letters in lower case, the type and the class.
pub struct Question {
    /// The labels, each behind its length byte, and the closing zero byte.
    pub name: Seq<u8>,
    /// The type asked for.
    pub record_type: u16,
    /// The class asked for.
    pub class: u16,
}

/// A normalized DNS question, the key of the service registry. Two
/// questions are the same when name, type and class all agree.
#[derive(Clone, Debug, PartialEq, Eq)]
pub struct DnsQuery {
    /// The name in wire format, letters in lower case: the labels, each
    /// behind its length byte, and the closing zero byte.
    pub name: Vec<u8>,
    /// The type asked for.
    pub record_type: u16,
    /// The class asked for.
    pub class: u16,
}

impl View for DnsQuery {
    type V = Question;

    open spec fn view(&self) -> Question {
        Question { name: self.name@, record_type: self.record_type, class: self.class }
    }
}

/// Whether two byte strings are equal.
pub fn same_bytes(a: &Vec<u8>, b: &Vec<u8>) -> (same: bool)
    ensures
        same == (a@ == b@),
{
    if a.len() != b.len() {
        return false;
    }
    let mut i: usize = 0;
    while i < a.len()
        invariant
            a.len() == b.len(),
            i <= a.len(),
            forall|j: int| 0 <= j < i ==> a@[j] == b@[j],
        decreases a.len() - i,
    {
        if a[i] != b[i] {
            return false;
        }
        i = i + 1;
    }
    assert(a@ =~= b@);
    true
}

impl DnsQuery {
    /// Whether `other` asks the same question.
    pub fn same(&self, other: &DnsQuery) -> (same: bool)
        ensures
            same == (self@ == other@),
    {
        self.record_type == other.record_type && self.class == other.class && same_bytes(
            &self.name,
            &other.name,
        )
    }
}

/// The address that a registered name resolves to.
#[derive(Clone, Copy, Debug, PartialEq, Eq, Structural)]
pub struct DnsRecordA {
    /// The IPv4 address, its first byte in the highest place.
    pub ip: u32,
}

/// One direction of a flow: protocol, source and destination.
#[derive(Clone, Copy, Debug, PartialEq, Eq, Structural)]
pub struct NatKey {
    /// The IPv4 protocol number.
    pub protocol: u8,
    /// The source address.
    pub src_ip: u32,
    /// The source port.
    pub src_port: u16,
    /// The destination address.
    pub dst_ip: u32,
    /// The destination port.
    pub dst_port: u16,
}

/// The endpoint that a matching packet is rewritten to.
#[derive(Clone, Copy, Debug, PartialEq, Eq, Structural)]
pub struct NatOrigin {
    /// The IPv4 address, its first byte in the highest place.
    pub ip: u32,
    /// The port.
    pub port: u16,
}

} // verus!
