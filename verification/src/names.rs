//! Short names of DNS record types and classes, for diagnostics.

use vstd::prelude::*;

verus! {

/// The canonical short name of a DNS record type number, `"UNKNOWN"` for a
/// number that has none here.
pub open spec fn record_type_name(record_type: u16) -> Seq<char> {
    if record_type == 1 {
        "A"@
    } else if record_type == 2 {
        "NS"@
    } else if record_type == 5 {
        "CNAME"@
    } else if record_type == 6 {
        "SOA"@
    } else if record_type == 12 {
        "PTR"@
    } else if record_type == 15 {
        "MX"@
    } else if record_type == 16 {
        "TXT"@
    } else if record_type == 28 {
        "AAAA"@
    } else if record_type == 33 {
        "SRV"@
    } else if record_type == 255 {
        "ANY"@
    } else {
        "UNKNOWN"@
    }
}

/// The canonical short name of a DNS class number, `"UNKNOWN"` for a number
/// that has none here.
pub open spec fn class_name(class: u16) -> Seq<char> {
    if class == 1 {
        "IN"@
    } else if class == 2 {
        "CS"@
    } else if class == 3 {
        "CH"@
    } else if class == 4 {
        "HS"@
    } else {
        "UNKNOWN"@
    }
}

/// Convert a record type number to its short name.
pub fn record_type_to_str(record_type: u16) -> (name: &'static str)
    ensures
        name@ == record_type_name(record_type),
{
    match record_type {
        1 => "A",
        2 => "NS",
        5 => "CNAME",
        6 => "SOA",
        12 => "PTR",
        15 => "MX",
        16 => "TXT",
        28 => "AAAA",
        33 => "SRV",
        255 => "ANY",
        _ => "UNKNOWN",
    }
}

/// Convert a class number to its short name.
pub fn class_to_str(class: u16) -> (name: &'static str)
    ensures
        name@ == class_name(class),
{
    match class {
        1 => "IN",
        2 => "CS",
        3 => "CH",
        4 => "HS",
        _ => "UNKNOWN",
    }
}

} // verus!
